//! What is known of the entries of a directory, and what they add up to.

use crate::paths;
use crate::paths::{equal_paths, under};
use crate::seqs::{collect_some, group_views, lemma_collect_step, view_of, views};
use crate::text::same;
use std::collections::{HashSet, VecDeque};
use vstd::prelude::*;
use vstd::utf8::{decode_utf8, valid_utf8};

verus! {

broadcast use group_views;

/// An entry of a directory.
#[derive(Debug, Clone)]
pub struct Entry {
    pub name: String,
    pub is_dir: bool,
    /// Allocated bytes on disk (0 for dirs).
    pub bytes: u64,
    /// Unix seconds.
    pub mtime: i64,
    pub dev: u64,
    pub ino: u64,
}

#[verifier::ext_equal]
pub struct EntryModel {
    pub name: Seq<char>,
    pub is_dir: bool,
    pub bytes: u64,
    pub mtime: i64,
    pub dev: u64,
    pub ino: u64,
}

impl View for Entry {
    type V = EntryModel;

    open spec fn view(&self) -> EntryModel {
        EntryModel {
            name: self.name@,
            is_dir: self.is_dir,
            bytes: self.bytes,
            mtime: self.mtime,
            dev: self.dev,
            ino: self.ino,
        }
    }
}

// ---- files that are counted once ----

/// The most keys that one shard remembers.
pub const SHARD_LIMIT: usize = 8_192;

/// How many shards there are.
pub const SHARDS: usize = 128;

/// The files that were counted most recently, in order.
struct InodeShard {
    seen: HashSet<u128>,
    order: VecDeque<u128>,
}

/// A list of keys to which one was added, with the oldest left out where there
/// are too many.
pub open spec fn remembered(keys: Seq<u128>, key: u128) -> Seq<u128> {
    if keys.len() >= SHARD_LIMIT {
        keys.push(key).skip(1)
    } else {
        keys.push(key)
    }
}

impl InodeShard {
    spec fn wf(&self) -> bool {
        &&& self.order@.no_duplicates()
        &&& self.order@.len() <= SHARD_LIMIT
        &&& forall|k: u128| self.seen@.contains(k) == #[trigger] self.order@.contains(k)
    }

    fn new() -> (r: Self)
        ensures
            r.wf(),
            r.order@.len() == 0,
    {
        broadcast use vstd::std_specs::hash::group_hash_axioms;

        let r = InodeShard { seen: HashSet::new(), order: VecDeque::new() };
        assert(r.order@.len() == 0);
        r
    }

    fn dedup(&mut self, key: u128, bytes: u64) -> (r: u64)
        requires
            old(self).wf(),
        ensures
            final(self).wf(),
            old(self).order@.contains(key) ==> r == 0 && final(self).order@ == old(self).order@,
            !old(self).order@.contains(key) ==> r == bytes && final(self).order@ == remembered(
                old(self).order@,
                key,
            ),
    {
        broadcast use vstd::std_specs::hash::group_hash_axioms;

        let ghost before = self.order@;
        if self.seen.contains(&key) {
            return 0;
        }
        self.seen.insert(key);
        self.order.push_back(key);
        let ghost all = before.push(key);
        proof {
            assert(self.order@ =~= all);
            assert forall|k: u128| all.contains(k) == (before.contains(k) || k == key) by {
                if before.contains(k) {
                    let i = choose|i: int| 0 <= i < before.len() && before[i] == k;
                    assert(all[i] == k);
                }
                assert(all[before.len() as int] == key);
                if all.contains(k) && k != key {
                    let i = choose|i: int| 0 <= i < all.len() && all[i] == k;
                    assert(before[i] == k);
                }
            }
            assert(all.no_duplicates()) by {
                assert forall|i: int, j: int|
                0 <= i < all.len() && 0 <= j < all.len() && i != j implies all[i] != all[j] by {
                    if i == before.len() {
                        assert(before.contains(before[j]));
                    } else if j == before.len() {
                        assert(before.contains(before[i]));
                    }
                }
            }
        }
        if self.order.len() > SHARD_LIMIT {
            if let Some(oldest) = self.order.pop_front() {
                self.seen.remove(&oldest);
                proof {
                    let rest = all.skip(1);
                    assert(self.order@ =~= rest);
                    assert forall|k: u128| self.seen@.contains(k) == #[trigger] self.order@.contains(k) by {
                        if rest.contains(k) {
                            let i = choose|i: int| 0 <= i < rest.len() && rest[i] == k;
                            assert(all[i + 1] == k);
                            assert(k != all[0]);
                        }
                        if all.contains(k) && k != oldest {
                            let i = choose|i: int| 0 <= i < all.len() && all[i] == k;
                            assert(rest[i - 1] == k);
                        }
                    }
                }
            }
        }
        bytes
    }
}

/// The number by which a file is known on its device.
pub open spec fn inode_key(dev: u64, ino: u64) -> u128 {
    (dev * 0x1_0000_0000_0000_0000 + ino) as u128
}

/// The shard of a file.
pub open spec fn shard_of(dev: u64, ino: u64) -> int {
    ((inode_key(dev, ino) / 256) % 128) as int
}

fn key_of(dev: u64, ino: u64) -> (r: u128)
    ensures
        r == inode_key(dev, ino),
{
    (dev as u128) * 0x1_0000_0000_0000_0000 + ino as u128
}

/// Remembers files by device and number, so that a file with several names is
/// counted once per scan.
pub struct InodeDedupe {
    shards: Vec<InodeShard>,
}

/// What a file counts for: nothing where it was counted already.
pub open spec fn counted(seen: Seq<Seq<u128>>, dev: u64, ino: u64, bytes: u64) -> u64 {
    if ino != 0 && seen[shard_of(dev, ino)].contains(inode_key(dev, ino)) {
        0
    } else {
        bytes
    }
}

/// The files that are remembered once one more was counted.
pub open spec fn after_count(seen: Seq<Seq<u128>>, dev: u64, ino: u64) -> Seq<Seq<u128>> {
    let s = shard_of(dev, ino);
    let key = inode_key(dev, ino);
    if ino == 0 || seen[s].contains(key) {
        seen
    } else {
        seen.update(s, remembered(seen[s], key))
    }
}

impl View for InodeDedupe {
    type V = Seq<Seq<u128>>;

    closed spec fn view(&self) -> Seq<Seq<u128>> {
        self.shards@.map_values(|s: InodeShard| s.order@)
    }
}

/// What is remembered before anything was counted.
pub open spec fn none_counted() -> Seq<Seq<u128>> {
    Seq::new(SHARDS as nat, |i: int| Seq::<u128>::empty())
}

/// Whether no more is remembered than the limits allow.
pub open spec fn within_limits(seen: Seq<Seq<u128>>) -> bool {
    seen.len() == SHARDS && forall|i: int| 0 <= i < SHARDS ==> (#[trigger] seen[i]).len()
    <= SHARD_LIMIT
}

impl InodeDedupe {
    /// Whether the shards are in order.
    pub closed spec fn wf(&self) -> bool {
        self.shards@.len() == SHARDS && forall|i: int|
        0 <= i < SHARDS ==> (#[trigger] self.shards@[i]).wf()
    }

    pub fn new() -> (r: Self)
        ensures
            r.wf(),
            r@ == none_counted(),
    {
        let mut shards: Vec<InodeShard> = Vec::new();
        let mut i: usize = 0;
        while i < SHARDS
            invariant
                i <= SHARDS,
                shards@.len() == i,
                forall|j: int|
                0 <= j < i ==> (#[trigger] shards@[j]).wf() && shards@[j].order@.len() == 0,
            decreases SHARDS - i,
        {
            shards.push(InodeShard::new());
            i += 1;
        }
        let r = InodeDedupe { shards };
        proof {
            assert forall|j: int| 0 <= j < SHARDS implies r@[j] == Seq::<u128>::empty() by {
                assert(r@[j] == r.shards@[j].order@);
                assert(r@[j] =~= Seq::<u128>::empty());
            }
            assert(r@ =~= none_counted());
        }
        r
    }

    /// Returns `bytes` the first time a (dev, ino) pair is seen, 0 after. Pairs
    /// without a number always count.
    pub fn dedup(&mut self, dev: u64, ino: u64, bytes: u64) -> (r: u64)
        requires
            old(self).wf(),
        ensures
            final(self).wf(),
            within_limits(final(self)@),
            r == counted(old(self)@, dev, ino, bytes),
            final(self)@ == after_count(old(self)@, dev, ino),
    {
        let ghost before = self@;
        let ghost shards = self.shards@;
        proof {
            assert forall|i: int| 0 <= i < SHARDS implies (#[trigger] before[i]).len() <= SHARD_LIMIT by {
                assert(shards[i].wf());
            }
        }
        if ino == 0 {
            return bytes;
        }
        let key = key_of(dev, ino);
        let s: usize = ((key / 256) % 128) as usize;
        assert(shards[s as int].wf());
        assert(before[s as int] == shards[s as int].order@);
        let r = self.shards[s].dedup(key, bytes);
        proof {
            assert forall|i: int| 0 <= i < SHARDS implies (#[trigger] self.shards@[i]).wf() by {
                if i != s {
                    assert(self.shards@[i] == shards[i]);
                }
            }
            assert(self@ =~= after_count(before, dev, ino));
            assert forall|i: int| 0 <= i < SHARDS implies (#[trigger] self@[i]).len() <= SHARD_LIMIT by {
                assert(self.shards@[i].wf());
            }
        }
        r
    }
}

// ---- mounts ----

/// A mount that lies below one of some roots.
pub open spec fn if_nested(roots: Seq<Seq<char>>) -> spec_fn(Seq<char>) -> Option<Seq<char>> {
    |mount: Seq<char>|
    if exists|i: int|
    0 <= i < roots.len() && !equal_paths(mount, #[trigger] roots[i]) && under(mount, roots[i]) {
        Some(mount)
    } else {
        None
    }
}

fn nested(mount: &str, roots: &Vec<String>) -> (r: Option<String>)
    ensures
        view_of(r) == if_nested(views(roots@))(mount@),
{
    let ghost all = views(roots@);
    let mut i: usize = 0;
    while i < roots.len()
        invariant
            i <= roots@.len(),
            all == views(roots@),
            forall|j: int|
            0 <= j < i ==> equal_paths(mount@, #[trigger] all[j]) || !under(mount@, all[j]),
        decreases roots@.len() - i,
    {
        assert(all[i as int] == roots@[i as int]@);
        let root = roots[i].as_str();
        if !paths::same_path(mount, root) && paths::starts_with(mount, root) {
            assert(!equal_paths(mount@, all[i as int]) && under(mount@, all[i as int]));
            return Some(mount.to_owned());
        }
        i += 1;
    }
    None
}

/// Mounted filesystems nested under a discovery root. A home-directory scan
/// should not walk device images, network shares, or virtual filesystems just
/// because they happen to be mounted below the home directory.
pub fn nested_mount_points(mounts: &Vec<String>, roots: &Vec<String>) -> (r: Vec<String>)
    ensures
        views(r@) == collect_some(views(mounts@), if_nested(views(roots@))),
{
    let ghost all = views(mounts@);
    let ghost f = if_nested(views(roots@));
    let mut out: Vec<String> = Vec::new();
    let limit: usize = mounts.len();
    let mut i: usize = 0;
    assert(views(out@) =~= collect_some(all.take(0), f));
    while i < limit
        invariant
            i <= limit <= mounts@.len(),
            all == views(mounts@),
            f == if_nested(views(roots@)),
            views(out@) == collect_some(all.take(i as int), f),
        decreases limit - i,
    {
        proof {
            lemma_collect_step(all, i as int, f);
        }
        assert(all[i as int] == mounts@[i as int]@);
        if let Some(x) = nested(mounts[i].as_str(), roots) {
            out.push(x);
        }
        i += 1;
    }
    assert(all.take(limit as int) =~= all);
    out
}

// ---- sizes ----

/// What a subtree adds up to.
#[derive(Debug, Clone, Copy, PartialEq, Eq, Structural)]
pub struct SubtreeStats {
    pub bytes: u64,
    pub files: u64,
    pub dirs: u64,
    pub newest_mtime: i64,
}

/// Of nothing.
pub open spec fn no_stats() -> SubtreeStats {
    SubtreeStats { bytes: 0, files: 0, dirs: 0, newest_mtime: 0 }
}

impl Default for SubtreeStats {
    fn default() -> (r: Self)
        ensures
            r == no_stats(),
    {
        SubtreeStats { bytes: 0, files: 0, dirs: 0, newest_mtime: 0 }
    }
}

pub open spec fn later(a: i64, b: i64) -> i64 {
    if a >= b {
        a
    } else {
        b
    }
}

/// Whether two subtrees can be added up.
pub open spec fn sums_fit(a: SubtreeStats, b: SubtreeStats) -> bool {
    &&& a.bytes + b.bytes <= u64::MAX
    &&& a.files + b.files <= u64::MAX
    &&& a.dirs + b.dirs <= u64::MAX
}

/// What two subtrees add up to.
pub open spec fn merged(a: SubtreeStats, b: SubtreeStats) -> SubtreeStats {
    SubtreeStats {
        bytes: (a.bytes + b.bytes) as u64,
        files: (a.files + b.files) as u64,
        dirs: (a.dirs + b.dirs) as u64,
        newest_mtime: later(a.newest_mtime, b.newest_mtime),
    }
}

impl SubtreeStats {
    /// What two subtrees add up to.
    pub fn merge(self, other: SubtreeStats) -> (r: SubtreeStats)
        requires
            sums_fit(self, other),
        ensures
            r == merged(self, other),
    {
        SubtreeStats {
            bytes: self.bytes + other.bytes,
            files: self.files + other.files,
            dirs: self.dirs + other.dirs,
            newest_mtime: if self.newest_mtime >= other.newest_mtime {
                self.newest_mtime
            } else {
                other.newest_mtime
            },
        }
    }

    /// What two subtrees add up to; nothing where a sum does not fit.
    pub fn checked_merge(self, other: SubtreeStats) -> (r: Option<SubtreeStats>)
        ensures
            r == if sums_fit(self, other) {
                Some(merged(self, other))
            } else {
                None
            },
    {
        if self.bytes <= u64::MAX - other.bytes && self.files <= u64::MAX - other.files && self.dirs
        <= u64::MAX - other.dirs {
            Some(self.merge(other))
        } else {
            None
        }
    }
}

/// What the entries of a directory add up to, and which directories are to be
/// looked into.
#[verifier::ext_equal]
pub struct TallyModel {
    pub bytes: nat,
    pub files: nat,
    pub dirs: nat,
    pub newest_mtime: i64,
    pub subdirs: Seq<Seq<char>>,
    /// The files that are remembered as counted.
    pub seen: Seq<Seq<u128>>,
}

/// Whether a path is in a list of paths.
pub open spec fn path_listed(path: Seq<char>, list: Seq<Seq<char>>) -> bool {
    exists|i: int| 0 <= i < list.len() && equal_paths(path, #[trigger] list[i])
}

/// Whether a path is in a list of paths.
pub fn is_listed(path: &str, list: &Vec<String>) -> (r: bool)
    ensures
        r == path_listed(path@, views(list@)),
{
    let ghost all = views(list@);
    let mut i: usize = 0;
    while i < list.len()
        invariant
            i <= list@.len(),
            all == views(list@),
            forall|j: int| 0 <= j < i ==> !equal_paths(path@, #[trigger] all[j]),
        decreases list@.len() - i,
    {
        assert(all[i as int] == list@[i as int]@);
        if paths::same_path(path, list[i].as_str()) {
            return true;
        }
        i += 1;
    }
    false
}

/// The sums over the entries of a directory. Every entry counts for the newest
/// time; directories in `prune` count for nothing else, as they are counted
/// elsewhere; files count once.
pub open spec fn tallied(
    dir: Seq<char>,
    entries: Seq<EntryModel>,
    prune: Seq<Seq<char>>,
    seen: Seq<Seq<u128>>,
) -> TallyModel
    decreases entries.len(),
{
    if entries.len() == 0 {
        TallyModel { bytes: 0, files: 0, dirs: 0, newest_mtime: 0, subdirs: Seq::empty(), seen }
    } else {
        let t = tallied(dir, entries.drop_last(), prune, seen);
        let e = entries.last();
        let child = paths::below(dir, e.name);
        let newest_mtime = later(t.newest_mtime, e.mtime);
        if !e.is_dir {
            TallyModel {
                bytes: t.bytes + counted(t.seen, e.dev, e.ino, e.bytes) as nat,
                files: t.files + 1,
                newest_mtime,
                seen: after_count(t.seen, e.dev, e.ino),
                ..t
            }
        } else if path_listed(child, prune) {
            TallyModel { newest_mtime, ..t }
        } else {
            TallyModel { dirs: t.dirs + 1, newest_mtime, subdirs: t.subdirs.push(child), ..t }
        }
    }
}

/// The sums over a directory, and what is to be looked into.
pub struct Tally {
    pub stats: SubtreeStats,
    pub subdirs: Vec<String>,
}

/// Whether sums are those of a model.
pub open spec fn tally_is(t: Tally, m: TallyModel) -> bool {
    &&& t.stats.bytes == m.bytes
    &&& t.stats.files == m.files
    &&& t.stats.dirs == m.dirs
    &&& t.stats.newest_mtime == m.newest_mtime
    &&& views(t.subdirs@) == m.subdirs
}

proof fn lemma_tally_grows(
    dir: Seq<char>,
    entries: Seq<EntryModel>,
    prune: Seq<Seq<char>>,
    seen: Seq<Seq<u128>>,
    i: int,
)
    requires
        0 <= i <= entries.len(),
    ensures
        tallied(dir, entries.take(i), prune, seen).bytes <= tallied(dir, entries, prune, seen).bytes,
    decreases entries.len(),
{
    if i < entries.len() {
        lemma_tally_grows(dir, entries.drop_last(), prune, seen, i);
        assert(entries.drop_last().take(i) =~= entries.take(i));
    } else {
        assert(entries.take(i) =~= entries);
    }
}

/// Sums up the entries of a directory; nothing where the bytes do not fit in 64
/// bits.
pub fn tally_entries(
    dir: &str,
    entries: &Vec<Entry>,
    prune: &Vec<String>,
    dedupe: &mut InodeDedupe,
) -> (r: Option<Tally>)
    requires
        old(dedupe).wf(),
    ensures
        final(dedupe).wf(),
        match r {
            Some(t) => tally_is(t, tallied(dir@, views(entries@), views(prune@), old(dedupe)@))
                && final(dedupe)@ == tallied(dir@, views(entries@), views(prune@), old(dedupe)@).seen,
            None => tallied(dir@, views(entries@), views(prune@), old(dedupe)@).bytes > u64::MAX,
        },
{
    let ghost all = views(entries@);
    let ghost seen = dedupe@;
    let ghost pruned = views(prune@);
    let mut bytes: u64 = 0;
    let mut files: u64 = 0;
    let mut dirs: u64 = 0;
    let mut newest_mtime: i64 = 0;
    let mut subdirs: Vec<String> = Vec::new();
    let n: usize = entries.len();
    let mut i: usize = 0;
    assert(all.take(0) =~= Seq::<EntryModel>::empty());
    assert(views(subdirs@) =~= tallied(dir@, all.take(0), pruned, seen).subdirs);
    while i < n
        invariant
            i <= n,
            n == entries@.len(),
            all == views(entries@),
            pruned == views(prune@),
            seen == old(dedupe)@,
            dedupe.wf(),
            dedupe@ == tallied(dir@, all.take(i as int), pruned, seen).seen,
            bytes == tallied(dir@, all.take(i as int), pruned, seen).bytes,
            files == tallied(dir@, all.take(i as int), pruned, seen).files,
            dirs == tallied(dir@, all.take(i as int), pruned, seen).dirs,
            newest_mtime == tallied(dir@, all.take(i as int), pruned, seen).newest_mtime,
            views(subdirs@) == tallied(dir@, all.take(i as int), pruned, seen).subdirs,
            files <= i,
            dirs <= i,
        decreases n - i,
    {
        proof {
            assert(all.take(i + 1).drop_last() =~= all.take(i as int));
            assert(all[i as int] == entries@[i as int]@);
            lemma_tally_grows(dir@, all, pruned, seen, i + 1);
        }
        let e = &entries[i];
        if e.mtime > newest_mtime {
            newest_mtime = e.mtime;
        }
        if e.is_dir {
            let child = paths::join(dir, e.name.as_str());
            if !is_listed(child.as_str(), prune) {
                dirs += 1;
                subdirs.push(child);
            }
        } else {
            let counts = dedupe.dedup(e.dev, e.ino, e.bytes);
            files += 1;
            if bytes > u64::MAX - counts {
                return None;
            }
            bytes += counts;
        }
        i += 1;
    }
    assert(all.take(i as int) =~= all);
    Some(Tally { stats: SubtreeStats { bytes, files, dirs, newest_mtime }, subdirs })
}

// ---- bulk records ----

/// The error number for a result that does not fit.
pub const ERANGE: i32 = 34;

/// The buffer that a bulk listing starts with.
pub const INITIAL_BULK_BUFFER: usize = 131_072;

/// The largest buffer for a bulk listing.
pub const MAX_BULK_BUFFER: usize = 1_048_576;

/// The length of the buffer to try next, where trying again can help.
pub fn next_bulk_buffer_len(errno: Option<i32>, current: usize) -> (r: Option<usize>)
    ensures
        r == if errno == Some(ERANGE) && current < MAX_BULK_BUFFER {
            Some(
                if 2 * current <= MAX_BULK_BUFFER {
                    (2 * current) as usize
                } else {
                    MAX_BULK_BUFFER
                },
            )
        } else {
            None
        },
{
    let in_range = match errno {
        Some(n) => n == ERANGE,
        None => false,
    };
    if !in_range || current >= MAX_BULK_BUFFER {
        return None;
    }
    if current <= MAX_BULK_BUFFER / 2 {
        Some(2 * current)
    } else {
        Some(MAX_BULK_BUFFER)
    }
}

/// The number that bytes stand for, the lowest byte first.
pub open spec fn little(bytes: Seq<u8>) -> nat
    decreases bytes.len(),
{
    if bytes.len() == 0 {
        0
    } else {
        bytes[0] as nat + 256 * little(bytes.skip(1))
    }
}

/// The number at a place, and the place behind it. A field that was not returned
/// takes no room and counts as zero.
pub open spec fn field(record: Seq<u8>, at: int, len: int, returned: bool) -> Option<(nat, int)> {
    if !returned {
        Some((0, at))
    } else if 0 <= at && at + len <= record.len() {
        Some((little(record.subrange(at, at + len)), at + len))
    } else {
        None
    }
}

/// A number of 32 bits, read as signed.
pub open spec fn signed32(n: nat) -> int {
    if n < 0x8000_0000 {
        n as int
    } else {
        n - 0x1_0000_0000
    }
}

/// A number of 64 bits, read as signed.
pub open spec fn signed64(n: nat) -> int {
    if n < 0x8000_0000_0000_0000 {
        n as int
    } else {
        n - 0x1_0000_0000_0000_0000
    }
}

/// The name that a reference leads to: text that ends in a zero byte. The
/// reference counts from its own place.
pub open spec fn name_at(record: Seq<u8>, at: int, offset: int, len: int) -> Option<Seq<char>> {
    let start = at + offset;
    let end = start + len;
    if len <= 0 || start < 0 || end > record.len() || record[end - 1] != 0 || !valid_utf8(
        record.subrange(start, end - 1),
    ) {
        None
    } else {
        Some(decode_utf8(record.subrange(start, end - 1)))
    }
}

pub const ATTR_NAME: u32 = 0x1;

pub const ATTR_DEVID: u32 = 0x2;

pub const ATTR_OBJTYPE: u32 = 0x8;

pub const ATTR_MODTIME: u32 = 0x400;

pub const ATTR_FILEID: u32 = 0x0200_0000;

pub const ATTR_ERROR: u32 = 0x2000_0000;

pub const ATTR_ALLOCSIZE: u32 = 0x4;

/// The object type of a directory.
pub const VDIR: u32 = 2;

/// The entry that a record describes once its fields are known; nothing where
/// it has no name of its own.
pub open spec fn entry_of(
    name: Option<Seq<char>>,
    dev: nat,
    kind: nat,
    mtime: nat,
    ino: nat,
    alloc: nat,
) -> Option<EntryModel> {
    match name {
        Some(n) => if n == "."@ || n == ".."@ {
            None
        } else {
            Some(
                EntryModel {
                    name: n,
                    is_dir: kind == VDIR,
                    bytes: if signed64(alloc) > 0 {
                        alloc as u64
                    } else {
                        0
                    },
                    mtime: signed64(mtime) as i64,
                    dev: dev as u64,
                    ino: ino as u64,
                },
            )
        },
        None => None,
    }
}

/// What follows the name and the error in a record.
pub open spec fn rest_of_record(
    record: Seq<u8>,
    at: int,
    common: u32,
    file: u32,
    name: Option<Seq<char>>,
) -> Option<Option<EntryModel>> {
    match field(record, at, 4, common & ATTR_DEVID != 0) {
        None => None,
        Some((dev, a)) => match field(record, a, 4, common & ATTR_OBJTYPE != 0) {
            None => None,
            Some((kind, b)) => match field(record, b, 16, common & ATTR_MODTIME != 0) {
                None => None,
                Some((time, c)) => match field(record, c, 8, common & ATTR_FILEID != 0) {
                    None => None,
                    Some((ino, d)) => match field(record, d, 8, file & ATTR_ALLOCSIZE != 0) {
                        None => None,
                        Some((alloc, _)) => Some(
                            entry_of(name, dev, kind, time % 0x1_0000_0000_0000_0000, ino, alloc),
                        ),
                    },
                },
            },
        },
    }
}

/// What a record describes: nothing where it is malformed, no entry where it
/// reports an error or has no name of its own. Behind its length stand the sets
/// of attributes that were returned, five numbers of which the first and the
/// fourth matter, then the attributes in a fixed order.
pub open spec fn record_entry(record: Seq<u8>) -> Option<Option<EntryModel>> {
    match field(record, 4, 20, true) {
        None => None,
        Some((_, first)) => {
            let common = little(record.subrange(4, 8)) as u32;
            let file = little(record.subrange(16, 20)) as u32;
            match field(record, first, 8, common & ATTR_NAME != 0) {
                None => None,
                Some((_, at)) => {
                    let name = if common & ATTR_NAME != 0 {
                        name_at(
                            record,
                            first,
                            signed32(little(record.subrange(first, first + 4))),
                            little(record.subrange(first + 4, first + 8)) as int,
                        )
                    } else {
                        None
                    };
                    match field(record, at, 4, common & ATTR_ERROR != 0) {
                        None => None,
                        Some((error, next)) => if error != 0 {
                            Some(None)
                        } else {
                            rest_of_record(record, next, common, file, name)
                        },
                    }
                },
            }
        },
    }
}

/// The entries that a buffer describes, from a place on; nothing where a record
/// is malformed.
pub open spec fn bulk_entries(buf: Seq<u8>, at: int, count: nat) -> Option<Seq<EntryModel>>
    decreases count,
{
    if count == 0 {
        Some(Seq::empty())
    } else {
        match field(buf, at, 4, true) {
            None => None,
            Some((len, _)) => if at + len > buf.len() {
                None
            } else {
                match record_entry(buf.subrange(at, at + len)) {
                    None => None,
                    Some(first) => match bulk_entries(buf, at + len, (count - 1) as nat) {
                        None => None,
                        Some(rest) => Some(
                            match first {
                                Some(e) => seq![e] + rest,
                                None => rest,
                            },
                        ),
                    },
                }
            },
        }
    }
}

proof fn lemma_little_bound(bytes: Seq<u8>)
    ensures
        bytes.len() == 4 ==> little(bytes) <= u32::MAX && little(bytes) == bytes[0] + 0x100 * bytes[1]
            + 0x1_0000 * bytes[2] + 0x100_0000 * bytes[3],
        bytes.len() == 8 ==> little(bytes) <= u64::MAX && little(bytes) == little(bytes.take(4))
            + 0x1_0000_0000 * little(bytes.skip(4)),
        bytes.len() == 16 ==> little(bytes) % 0x1_0000_0000_0000_0000 == little(bytes.take(8)),
{
    if bytes.len() == 4 {
        lemma_little_four(bytes);
    }
    if bytes.len() == 8 {
        lemma_little_eight(bytes);
    }
    if bytes.len() == 16 {
        lemma_little_split(bytes, 8);
        let low = bytes.take(8);
        lemma_little_eight(low);
        assert(pow256(8) == 0x1_0000_0000_0000_0000) by {
            reveal_with_fuel(pow256, 9);
        }
        let l = little(low);
        let h = little(bytes.skip(8));
        assert((l + 0x1_0000_0000_0000_0000 * h) % 0x1_0000_0000_0000_0000 == l) by (nonlinear_arith)
            requires
                l < 0x1_0000_0000_0000_0000,
        ;
    }
}

spec fn pow256(n: nat) -> nat
    decreases n,
{
    if n == 0 {
        1
    } else {
        256 * pow256((n - 1) as nat)
    }
}

proof fn lemma_little_four(bytes: Seq<u8>)
    requires
        bytes.len() == 4,
    ensures
        little(bytes) <= u32::MAX,
        little(bytes) == bytes[0] + 0x100 * bytes[1] + 0x1_0000 * bytes[2] + 0x100_0000 * bytes[3],
{
    reveal_with_fuel(little, 5);
    assert(bytes.skip(1).skip(1)[0] == bytes[2]);
    assert(bytes.skip(1).skip(1).skip(1)[0] == bytes[3]);
}

proof fn lemma_little_eight(bytes: Seq<u8>)
    requires
        bytes.len() == 8,
    ensures
        little(bytes) <= u64::MAX,
        little(bytes) == little(bytes.take(4)) + 0x1_0000_0000 * little(bytes.skip(4)),
{
    lemma_little_split(bytes, 4);
    lemma_little_four(bytes.take(4));
    lemma_little_four(bytes.skip(4));
    assert(pow256(4) == 0x1_0000_0000) by {
        reveal_with_fuel(pow256, 5);
    }
}

/// A number in two parts.
proof fn lemma_little_split(bytes: Seq<u8>, n: int)
    requires
        0 <= n <= bytes.len(),
    ensures
        little(bytes) == little(bytes.take(n)) + pow256(n as nat) * little(bytes.skip(n)),
    decreases n,
{
    if n == 0 {
        assert(bytes.skip(0) =~= bytes);
        let all = little(bytes);
        assert(pow256(0) == 1);
        assert(1 * all == all);
    } else {
        let t = bytes.skip(1);
        lemma_little_split(t, n - 1);
        assert(t.take(n - 1) =~= bytes.take(n).skip(1));
        assert(t.skip(n - 1) =~= bytes.skip(n));
        let a = little(t.take(n - 1));
        let p = pow256((n - 1) as nat);
        let b = little(bytes.skip(n));
        assert(256 * (a + p * b) == 256 * a + (256 * p) * b) by (nonlinear_arith);
        assert(pow256(n as nat) == 256 * p);
        assert(bytes.take(n)[0] == bytes[0]);
        assert(little(bytes.take(n)) == bytes[0] as nat + 256 * a);
    }
}

fn read_u32(bytes: &[u8], at: usize) -> (r: Option<u32>)
    ensures
        match r {
            Some(v) => at + 4 <= bytes@.len() && v == little(bytes@.subrange(at as int, at + 4)),
            None => at + 4 > bytes@.len(),
        },
{
    let n: usize = bytes.len();
    if n < 4 || at > n - 4 {
        return None;
    }
    proof {
        lemma_little_bound(bytes@.subrange(at as int, at + 4));
    }
    let a: u32 = bytes[at] as u32;
    let b: u32 = bytes[at + 1] as u32;
    let c: u32 = bytes[at + 2] as u32;
    let d: u32 = bytes[at + 3] as u32;
    Some(a + 0x100 * b + 0x1_0000 * c + 0x100_0000 * d)
}

fn read_u64(bytes: &[u8], at: usize) -> (r: Option<u64>)
    ensures
        match r {
            Some(v) => at + 8 <= bytes@.len() && v == little(bytes@.subrange(at as int, at + 8)),
            None => at + 8 > bytes@.len(),
        },
{
    let n: usize = bytes.len();
    if n < 8 || at > n - 8 {
        return None;
    }
    proof {
        let s = bytes@.subrange(at as int, at + 8);
        lemma_little_bound(s);
        assert(s.take(4) =~= bytes@.subrange(at as int, at + 4));
        assert(s.skip(4) =~= bytes@.subrange(at + 4, at + 8));
        lemma_little_bound(s.take(4));
        lemma_little_bound(s.skip(4));
    }
    match (read_u32(bytes, at), read_u32(bytes, at + 4)) {
        (Some(a), Some(b)) => Some(a as u64 + 0x1_0000_0000 * (b as u64)),
        _ => None,
    }
}

/// A number of 64 bits, read as signed.
fn as_signed(v: u64) -> (r: i64)
    ensures
        r == signed64(v as nat),
{
    if v < 0x8000_0000_0000_0000 {
        v as i64
    } else {
        -((u64::MAX - v) as i64) - 1
    }
}

/// Calls `std::str::from_utf8`, which accepts the bytes where they are UTF-8 and
/// gives the text that they encode.
#[verifier::external_body]
pub(crate) fn utf8_text(bytes: &[u8]) -> (r: Option<String>)
    ensures
        match r {
            Some(s) => valid_utf8(bytes@) && s@ == decode_utf8(bytes@),
            None => !valid_utf8(bytes@),
        },
{
    std::str::from_utf8(bytes).ok().map(str::to_owned)
}

fn parse_name(record: &[u8], at: usize, offset: u32, len: u32) -> (r: Option<String>)
    requires
        at <= record@.len(),
    ensures
        view_of(r) == name_at(record@, at as int, signed32(offset as nat), len as int),
{
    let n: usize = record.len();
    if len == 0 {
        return None;
    }
    let start: i128 = if offset < 0x8000_0000 {
        at as i128 + offset as i128
    } else {
        at as i128 + offset as i128 - 0x1_0000_0000
    };
    if start < 0 || start + len as i128 > n as i128 {
        return None;
    }
    let s: usize = start as usize;
    let e: usize = s + len as usize;
    if record[e - 1] != 0 {
        return None;
    }
    let bytes = vstd::slice::slice_subrange(record, s, e - 1);
    utf8_text(bytes)
}

/// The place behind a field, and the field as a number of 32 bits.
fn take_u32(record: &[u8], at: usize, returned: bool) -> (r: Option<(u32, usize)>)
    requires
        at <= record@.len(),
    ensures
        match (r, field(record@, at as int, 4, returned)) {
            (Some((v, next)), Some((n, k))) => v == n && next == k && next <= record@.len(),
            (None, None) => true,
            _ => false,
        },
{
    if !returned {
        return Some((0, at));
    }
    let n: usize = record.len();
    match read_u32(record, at) {
        Some(v) => {
            assert(at + 4 <= n);
            Some((v, at + 4))
        },
        None => None,
    }
}

fn take_u64(record: &[u8], at: usize, returned: bool) -> (r: Option<(u64, usize)>)
    requires
        at <= record@.len(),
    ensures
        match (r, field(record@, at as int, 8, returned)) {
            (Some((v, next)), Some((n, k))) => v == n && next == k && next <= record@.len(),
            (None, None) => true,
            _ => false,
        },
{
    if !returned {
        return Some((0, at));
    }
    let n: usize = record.len();
    match read_u64(record, at) {
        Some(v) => {
            assert(at + 8 <= n);
            Some((v, at + 8))
        },
        None => None,
    }
}

/// The seconds of a time of two numbers of 64 bits.
fn take_time(record: &[u8], at: usize, returned: bool) -> (r: Option<(u64, usize)>)
    requires
        at <= record@.len(),
    ensures
        match (r, field(record@, at as int, 16, returned)) {
            (Some((v, next)), Some((n, k))) => v == n % 0x1_0000_0000_0000_0000 && next == k && next
            <= record@.len(),
            (None, None) => true,
            _ => false,
        },
{
    if !returned {
        return Some((0, at));
    }
    let n: usize = record.len();
    if n < 16 || at > n - 16 {
        return None;
    }
    proof {
        let s = record@.subrange(at as int, at + 16);
        lemma_little_bound(s);
        assert(s.take(8) =~= record@.subrange(at as int, at + 8));
    }
    match read_u64(record, at) {
        Some(v) => Some((v, at + 16)),
        None => None,
    }
}

fn entry_from(name: Option<String>, dev: u32, kind: u32, mtime: u64, ino: u64, alloc: u64) -> (r:
    Option<Entry>)
    ensures
        view_of(r) == entry_of(
            view_of(name),
            dev as nat,
            kind as nat,
            mtime as nat,
            ino as nat,
            alloc as nat,
        ),
{
    match name {
        Some(n) => if same(n.as_str(), ".") || same(n.as_str(), "..") {
            None
        } else {
            let bytes: u64 = if as_signed(alloc) > 0 {
                alloc
            } else {
                0
            };
            Some(
                Entry {
                    name: n,
                    is_dir: kind == VDIR,
                    bytes,
                    mtime: as_signed(mtime),
                    dev: dev as u64,
                    ino,
                },
            )
        },
        None => None,
    }
}

fn parse_rest(record: &[u8], at: usize, common: u32, file: u32, name: Option<String>) -> (r: Option<
    Option<Entry>,
    >)
    requires
        at <= record@.len(),
    ensures
        match (r, rest_of_record(record@, at as int, common, file, view_of(name))) {
            (Some(e), Some(m)) => view_of(e) == m,
            (None, None) => true,
            _ => false,
        },
{
    let (dev, a) = match take_u32(record, at, common & ATTR_DEVID != 0) {
        Some(x) => x,
        None => {
            return None;
        },
    };
    let (kind, b) = match take_u32(record, a, common & ATTR_OBJTYPE != 0) {
        Some(x) => x,
        None => {
            return None;
        },
    };
    let (time, c) = match take_time(record, b, common & ATTR_MODTIME != 0) {
        Some(x) => x,
        None => {
            return None;
        },
    };
    let (ino, d) = match take_u64(record, c, common & ATTR_FILEID != 0) {
        Some(x) => x,
        None => {
            return None;
        },
    };
    let (alloc, _) = match take_u64(record, d, file & ATTR_ALLOCSIZE != 0) {
        Some(x) => x,
        None => {
            return None;
        },
    };
    Some(entry_from(name, dev, kind, time, ino, alloc))
}

/// What a record of a bulk listing describes.
pub fn parse_bulk_entry(record: &[u8]) -> (r: Option<Option<Entry>>)
    ensures
        match (r, record_entry(record@)) {
            (Some(e), Some(m)) => view_of(e) == m,
            (None, None) => true,
            _ => false,
        },
{
    let n: usize = record.len();
    if n < 24 {
        return None;
    }
    let (common, file) = match (read_u32(record, 4), read_u32(record, 16)) {
        (Some(c), Some(f)) => (c, f),
        _ => {
            return None;
        },
    };
    let named = common & ATTR_NAME != 0;
    let mut at: usize = 24;
    let mut name: Option<String> = None;
    if named {
        let (offset, len) = match (read_u32(record, 24), read_u32(record, 28)) {
            (Some(o), Some(l)) => (o, l),
            _ => {
                return None;
            },
        };
        name = parse_name(record, 24, offset, len);
        at = 32;
    }
    let (error, next) = match take_u32(record, at, common & ATTR_ERROR != 0) {
        Some(x) => x,
        None => {
            return None;
        },
    };
    if error != 0 {
        return Some(None);
    }
    parse_rest(record, next, common, file, name)
}

/// The entries that a buffer of a bulk listing describes; nothing where a record
/// is malformed.
pub fn parse_bulk_entries(buf: &[u8], count: usize) -> (r: Option<Vec<Entry>>)
    ensures
        match (r, bulk_entries(buf@, 0, count as nat)) {
            (Some(v), Some(m)) => views(v@) == m,
            (None, None) => true,
            _ => false,
        },
{
    let ghost whole = bulk_entries(buf@, 0, count as nat);
    let mut out: Vec<Entry> = Vec::new();
    let mut at: usize = 0;
    let mut left: usize = count;
    let n: usize = buf.len();
    assert(whole matches Some(m) ==> views(out@) + m =~= m);
    while left > 0
        invariant
            at <= n,
            n == buf@.len(),
            whole == bulk_entries(buf@, 0, count as nat),
            match (whole, bulk_entries(buf@, at as int, left as nat)) {
                (Some(m), Some(rest)) => m == views(out@) + rest,
                (None, None) => true,
                _ => false,
            },
        decreases left,
    {
        let ghost before = views(out@);
        let len: u32 = match read_u32(buf, at) {
            Some(l) => l,
            None => {
                return None;
            },
        };
        if len as u64 > (n - at) as u64 {
            return None;
        }
        let end: usize = at + len as usize;
        let record = vstd::slice::slice_subrange(buf, at, end);
        match parse_bulk_entry(record) {
            Some(Some(e)) => {
                let ghost m = e@;
                out.push(e);
                proof {
                    if let Some(rest) = bulk_entries(buf@, end as int, (left - 1) as nat) {
                        assert(before + (seq![m] + rest) =~= before.push(m) + rest);
                    }
                }
            },
            Some(None) => {},
            None => {
                return None;
            },
        }
        at = end;
        left -= 1;
    }
    assert(views(out@) + Seq::<EntryModel>::empty() =~= views(out@));
    Some(out)
}

// ---- laws ----

/// A file is counted once: right after it was counted it counts for nothing.
pub proof fn law_counted_once(seen: Seq<Seq<u128>>, dev: u64, ino: u64, bytes: u64)
    requires
        seen.len() == SHARDS,
        ino != 0,
    ensures
        counted(after_count(seen, dev, ino), dev, ino, bytes) == 0,
{
    let s = shard_of(dev, ino);
    let key = inode_key(dev, ino);
    if !seen[s].contains(key) {
        let r = remembered(seen[s], key);
        assert(r.last() == key);
        assert(r.contains(key));
    }
}

/// Counting one file leaves the others of other shards as they were, and forgets
/// at most the oldest one of its own.
pub proof fn law_counting_forgets_the_oldest_only(
    seen: Seq<Seq<u128>>,
    dev: u64,
    ino: u64,
    i: int,
    k: int,
)
    requires
        seen.len() == SHARDS,
        0 <= i < SHARDS,
        0 <= k < seen[i].len(),
        k > 0 || i != shard_of(dev, ino) || seen[i].len() < SHARD_LIMIT,
    ensures
        after_count(seen, dev, ino)[i].contains(seen[i][k]),
{
    let s = shard_of(dev, ino);
    let key = inode_key(dev, ino);
    let next = after_count(seen, dev, ino);
    if i == s && ino != 0 && !seen[s].contains(key) {
        let pushed = seen[s].push(key);
        assert(pushed[k] == seen[s][k]);
        if seen[s].len() >= SHARD_LIMIT {
            assert(pushed.skip(1)[k - 1] == seen[s][k]);
        }
    } else {
        assert(next[i] == seen[i]);
    }
}

/// Adding up does not depend on the order or the grouping, and nothing adds
/// nothing: subtrees can be summed up in parallel.
pub proof fn law_merge_is_a_sum(a: SubtreeStats, b: SubtreeStats, c: SubtreeStats)
    requires
        sums_fit(a, b),
        sums_fit(b, c),
        sums_fit(merged(a, b), c),
    ensures
        merged(a, b) == merged(b, a),
        sums_fit(a, merged(b, c)),
        merged(merged(a, b), c) == merged(a, merged(b, c)),
        a.newest_mtime >= 0 ==> merged(a, no_stats()) == a,
{
}

/// A buffer grows when it grows at all, and never beyond the limit.
pub proof fn law_bulk_buffer_is_bounded(current: usize)
    requires
        0 < current < MAX_BULK_BUFFER,
    ensures
        ({
                let next = if 2 * current <= MAX_BULK_BUFFER {
                    2 * current
                } else {
                    MAX_BULK_BUFFER as int
                };
                current < next <= MAX_BULK_BUFFER
        }),
{
}

/// A file counts in full unless the very same one is remembered as counted; one
/// without a number always counts.
pub proof fn law_files_count_in_full(seen: Seq<Seq<u128>>, dev: u64, ino: u64, bytes: u64)
    requires
        seen.len() == SHARDS,
    ensures
        counted(none_counted(), dev, ino, bytes) == bytes,
        ino == 0 ==> counted(seen, dev, ino, bytes) == bytes,
        counted(seen, dev, ino, bytes) == bytes || counted(seen, dev, ino, bytes) == 0,
        counted(seen, dev, ino, bytes) < bytes ==> exists|i: int|
        0 <= i < 128 && (#[trigger] seen[i]).contains(
            (dev * 0x1_0000_0000_0000_0000 + ino) as u128,
        ),
{
    let s = shard_of(dev, ino);
    assert(0 <= s < 128);
    assert(none_counted()[s] == Seq::<u128>::empty());
}

/// Counting one file changes nothing for another.
pub proof fn law_other_files_still_count(
    seen: Seq<Seq<u128>>,
    dev: u64,
    ino: u64,
    other_dev: u64,
    other_ino: u64,
    bytes: u64,
)
    requires
        seen.len() == SHARDS,
        (dev, ino) != (other_dev, other_ino),
        counted(seen, other_dev, other_ino, bytes) == bytes,
    ensures
        counted(after_count(seen, dev, ino), other_dev, other_ino, bytes) == bytes,
{
    let s = shard_of(dev, ino);
    let o = shard_of(other_dev, other_ino);
    let key = inode_key(dev, ino);
    let other = inode_key(other_dev, other_ino);
    assert(key != other) by {
        assert(dev * 0x1_0000_0000_0000_0000 + ino != other_dev * 0x1_0000_0000_0000_0000 + other_ino);
    }
    let next = after_count(seen, dev, ino);
    if other_ino != 0 && bytes != 0 && next[o].contains(other) {
        if ino != 0 && !seen[s].contains(key) && o == s {
            let j = choose|j: int| 0 <= j < next[o].len() && next[o][j] == other;
            if seen[s].len() >= SHARD_LIMIT {
                assert(seen[s].push(key)[j + 1] == other);
                assert(seen[s][j + 1] == other);
            } else {
                assert(seen[s].push(key)[j] == other);
                assert(seen[s][j] == other);
            }
        }
    }
}

/// The newest time of a directory is the latest of its entries', and no time before
/// the epoch.
pub proof fn law_tally_is_as_new_as_its_newest_entry(
    dir: Seq<char>,
    entries: Seq<EntryModel>,
    prune: Seq<Seq<char>>,
    seen: Seq<Seq<u128>>,
)
    ensures
        tallied(dir, entries, prune, seen).newest_mtime >= 0,
        forall|i: int|
        0 <= i < entries.len() ==> tallied(dir, entries, prune, seen).newest_mtime >= (
        #[trigger] entries[i]).mtime,
        tallied(dir, entries, prune, seen).newest_mtime == 0 || exists|i: int|
        0 <= i < entries.len() && tallied(dir, entries, prune, seen).newest_mtime == (
        #[trigger] entries[i]).mtime,
    decreases entries.len(),
{
    if entries.len() > 0 {
        let less = entries.drop_last();
        law_tally_is_as_new_as_its_newest_entry(dir, less, prune, seen);
        let t = tallied(dir, less, prune, seen);
        assert forall|i: int| 0 <= i < entries.len() implies tallied(dir, entries, prune, seen).newest_mtime >= (
        #[trigger] entries[i]).mtime by {
            if i < less.len() {
                assert(less[i] == entries[i]);
            }
        }
        if t.newest_mtime != 0 {
            let i = choose|i: int| 0 <= i < less.len() && t.newest_mtime == (#[trigger] less[i]).mtime;
            assert(entries[i] == less[i]);
        }
        assert(entries[entries.len() - 1] == entries.last());
    }
}

/// Every directory that is not pruned is gone into, and nothing else.
pub proof fn law_tally_goes_into_directories(
    dir: Seq<char>,
    entries: Seq<EntryModel>,
    prune: Seq<Seq<char>>,
    seen: Seq<Seq<u128>>,
    path: Seq<char>,
)
    ensures
        tallied(dir, entries, prune, seen).subdirs.contains(path) <==> exists|i: int|
        0 <= i < entries.len() && (#[trigger] entries[i]).is_dir && paths::below(dir, entries[i].name)
            == path && forall|j: int| 0 <= j < prune.len() ==> !equal_paths(path, #[trigger] prune[j]),
        tallied(dir, entries, prune, seen).dirs == tallied(dir, entries, prune, seen).subdirs.len(),
    decreases entries.len(),
{
    if entries.len() > 0 {
        let less = entries.drop_last();
        let e = entries.last();
        let child = paths::below(dir, e.name);
        law_tally_goes_into_directories(dir, less, prune, seen, path);
        let t = tallied(dir, less, prune, seen);
        let all = tallied(dir, entries, prune, seen);
        if e.is_dir && !path_listed(child, prune) {
            if all.subdirs.contains(path) {
                let k = choose|k: int| 0 <= k < all.subdirs.len() && all.subdirs[k] == path;
                if k < t.subdirs.len() {
                    assert(t.subdirs[k] == path);
                    let i = choose|i: int|
                    0 <= i < less.len() && (#[trigger] less[i]).is_dir && paths::below(dir, less[i].name)
                        == path && forall|j: int|
                    0 <= j < prune.len() ==> !equal_paths(path, #[trigger] prune[j]);
                    assert(entries[i] == less[i]);
                } else {
                    assert(entries[entries.len() - 1] == e);
                }
            }
            if t.subdirs.contains(path) {
                let k = choose|k: int| 0 <= k < t.subdirs.len() && t.subdirs[k] == path;
                assert(all.subdirs[k] == path);
            }
            assert(all.subdirs[t.subdirs.len() as int] == child);
        } else {
            assert(all.subdirs == t.subdirs);
            if t.subdirs.contains(path) {
                let i = choose|i: int|
                0 <= i < less.len() && (#[trigger] less[i]).is_dir && paths::below(dir, less[i].name) == path
                    && forall|j: int| 0 <= j < prune.len() ==> !equal_paths(path, #[trigger] prune[j]);
                assert(entries[i] == less[i]);
            }
        }
        if exists|i: int|
            0 <= i < entries.len() && (#[trigger] entries[i]).is_dir && paths::below(dir, entries[i].name)
                == path && forall|j: int| 0 <= j < prune.len() ==> !equal_paths(path, #[trigger] prune[j]) {
            let i = choose|i: int|
            0 <= i < entries.len() && (#[trigger] entries[i]).is_dir && paths::below(dir, entries[i].name)
                == path && forall|j: int| 0 <= j < prune.len() ==> !equal_paths(path, #[trigger] prune[j]);
            if i < less.len() {
                assert(less[i] == entries[i]);
            } else {
                assert(e.is_dir && !path_listed(child, prune));
            }
        }
    }
}

/// One more file adds itself and what it counts for; one more directory adds no bytes
/// and no file.
pub proof fn law_tally_adds_up(
    dir: Seq<char>,
    entries: Seq<EntryModel>,
    e: EntryModel,
    prune: Seq<Seq<char>>,
    seen: Seq<Seq<u128>>,
)
    ensures
        ({
            let before = tallied(dir, entries, prune, seen);
            let after = tallied(dir, entries.push(e), prune, seen);
            &&& after.files == before.files + if e.is_dir {
                0int
            } else {
                1
            }
            &&& after.bytes == before.bytes + if e.is_dir {
                0
            } else {
                counted(before.seen, e.dev, e.ino, e.bytes)
            }
            &&& e.is_dir ==> after.seen == before.seen
        }),
{
    assert(entries.push(e).drop_last() =~= entries);
    assert(entries.push(e).last() == e);
}

/// The mounts below some roots are those that lie below one of them and are not that
/// root itself.
pub proof fn law_nested_mounts_lie_below_a_root(mounts: Seq<Seq<char>>, roots: Seq<Seq<char>>, m: Seq<char>)
    ensures
        collect_some(mounts, if_nested(roots)).contains(m) <==> mounts.contains(m) && exists|i: int|
        0 <= i < roots.len() && under(m, #[trigger] roots[i]) && !equal_paths(m, roots[i]),
{
    crate::seqs::law_collected_is_made(mounts, if_nested(roots), m);
    let nested = exists|i: int|
    0 <= i < roots.len() && under(m, #[trigger] roots[i]) && !equal_paths(m, roots[i]);
    if nested {
        let i = choose|i: int|
        0 <= i < roots.len() && under(m, #[trigger] roots[i]) && !equal_paths(m, roots[i]);
        assert(!equal_paths(m, roots[i]) && under(m, roots[i]));
        assert(if_nested(roots)(m) == Some(m));
        if mounts.contains(m) {
            let k = choose|k: int| 0 <= k < mounts.len() && mounts[k] == m;
            assert(if_nested(roots)(mounts[k]) == Some(m));
        }
    }
    if collect_some(mounts, if_nested(roots)).contains(m) {
        let k = choose|k: int| 0 <= k < mounts.len() && if_nested(roots)(#[trigger] mounts[k]) == Some(m);
        assert(mounts[k] == m);
        let i = choose|i: int|
        0 <= i < roots.len() && !equal_paths(m, #[trigger] roots[i]) && under(m, roots[i]);
        assert(under(m, roots[i]));
    }
}

/// A record of the kernel names an entry by its name, tells directories by their kind,
/// and counts no space below zero; the directory itself and its parent are no entries.
pub proof fn law_records_are_entries(
    name: Option<Seq<char>>,
    dev: nat,
    kind: nat,
    mtime: nat,
    ino: nat,
    alloc: nat,
)
    requires
        alloc < 0x1_0000_0000_0000_0000,
        dev < 0x1_0000_0000,
        ino < 0x1_0000_0000_0000_0000,
    ensures
        name is None || name == Some("."@) || name == Some(".."@) <==> entry_of(
            name,
            dev,
            kind,
            mtime,
            ino,
            alloc,
        ) is None,
        entry_of(name, dev, kind, mtime, ino, alloc) matches Some(e) ==> {
            &&& Some(e.name) == name
            &&& e.is_dir <==> kind == 2
            &&& e.bytes == if alloc < 0x8000_0000_0000_0000 {
                alloc
            } else {
                0
            }
            &&& e.dev == dev
            &&& e.ino == ino
        },
{
}

/// Bytes are read with the lowest one first.
pub proof fn law_bytes_are_read_lowest_first(a: u8, b: u8, c: u8, d: u8)
    ensures
        little(seq![a, b, c, d]) == a + 0x100 * b + 0x1_0000 * c + 0x100_0000 * d,
{
    reveal_with_fuel(little, 5);
    let s = seq![a, b, c, d];
    assert(s.skip(1) =~= seq![b, c, d]);
    assert(s.skip(1).skip(1) =~= seq![c, d]);
    assert(s.skip(1).skip(1).skip(1) =~= seq![d]);
    assert(s.skip(1).skip(1).skip(1).skip(1) =~= Seq::<u8>::empty());
}

/// What a record with every attribute tells: the name where its reference points, and
/// behind it the error, the device, the kind, the time, the number and the space, in
/// this order. A record with an error is passed over.
pub proof fn law_records_tell_their_fields(record: Seq<u8>)
    requires
        record.len() >= 76,
        record.subrange(4, 8) =~= seq![0x0bu8, 0x04u8, 0x00u8, 0x22u8],
        record.subrange(16, 20) =~= seq![0x04u8, 0x00u8, 0x00u8, 0x00u8],
    ensures
        little(record.subrange(32, 36)) != 0 ==> record_entry(record) == Some(None::<EntryModel>),
        little(record.subrange(32, 36)) == 0 ==> record_entry(record) == Some(
            entry_of(
                name_at(
                    record,
                    24,
                    signed32(little(record.subrange(24, 28))),
                    little(record.subrange(28, 32)) as int,
                ),
                little(record.subrange(36, 40)),
                little(record.subrange(40, 44)),
                little(record.subrange(44, 60)) % 0x1_0000_0000_0000_0000,
                little(record.subrange(60, 68)),
                little(record.subrange(68, 76)),
            ),
        ),
{
    law_bytes_are_read_lowest_first(0x0b, 0x04, 0x00, 0x22);
    law_bytes_are_read_lowest_first(0x04, 0x00, 0x00, 0x00);
    assert(record.subrange(4, 8) == seq![0x0bu8, 0x04u8, 0x00u8, 0x22u8]);
    assert(record.subrange(16, 20) == seq![0x04u8, 0x00u8, 0x00u8, 0x00u8]);
    assert(little(record.subrange(4, 8)) as u32 == 0x2200_040bu32);
    assert(little(record.subrange(16, 20)) as u32 == 0x4u32);
    assert(0x2200_040bu32 & 0x1u32 != 0 && 0x2200_040bu32 & 0x2u32 != 0 && 0x2200_040bu32 & 0x8u32 != 0
        && 0x2200_040bu32 & 0x400u32 != 0 && 0x2200_040bu32 & 0x0200_0000u32 != 0 && 0x2200_040bu32
        & 0x2000_0000u32 != 0 && 0x4u32 & 0x4u32 != 0) by (bit_vector);
}

/// The name of a record ends before a zero byte; nothing else is read as a name.
pub proof fn law_names_end_with_zero(before: Seq<u8>, name: Seq<u8>, after: Seq<u8>, at: int, last: u8)
    requires
        0 <= at <= before.len(),
    ensures
        valid_utf8(name) ==> name_at(
            before + name + seq![0u8] + after,
            at,
            before.len() - at,
            (name.len() + 1) as int,
        ) == Some(decode_utf8(name)),
        last != 0 || !valid_utf8(name) ==> name_at(
            before + name + seq![last] + after,
            at,
            before.len() - at,
            (name.len() + 1) as int,
        ) is None,
        name_at(before, at, before.len() - at, 1) is None,
        name_at(before, at, 0, 0) is None,
{
    let r = before + name + seq![0u8] + after;
    let q = before + name + seq![last] + after;
    assert(r.subrange(before.len() as int, (before.len() + name.len()) as int) =~= name);
    assert(q.subrange(before.len() as int, (before.len() + name.len()) as int) =~= name);
    assert(r[(before.len() + name.len()) as int] == 0);
    assert(q[(before.len() + name.len()) as int] == last);
}

/// Numbers of 32 bits are read as signed: the upper half stands below zero.
pub proof fn law_high_numbers_are_negative(n: nat)
    requires
        n < 0x1_0000_0000,
    ensures
        -0x8000_0000 <= signed32(n) < 0x8000_0000,
        signed32(n) == n || signed32(n) == n - 0x1_0000_0000,
{
}

proof fn lemma_shifted(a: Seq<u8>, b: Seq<u8>, at: int, count: nat)
    requires
        0 <= at,
    ensures
        bulk_entries(a + b, a.len() + at, count) == bulk_entries(b, at, count),
    decreases count,
{
    if count > 0 {
        let s = a + b;
        let k = a.len() + at;
        if at + 4 <= b.len() {
            assert(s.subrange(k, k + 4) =~= b.subrange(at, at + 4));
            let len = little(b.subrange(at, at + 4)) as int;
            if at + len <= b.len() {
                assert(s.subrange(k, k + len) =~= b.subrange(at, at + len));
                lemma_shifted(a, b, at + len, (count - 1) as nat);
            }
        }
    }
}

/// The records of a listing stand one behind the other, each as long as it says: what
/// the first tells comes before what the others tell.
pub proof fn law_records_follow_each_other(first: Seq<u8>, others: Seq<u8>, count: nat)
    requires
        first.len() >= 4,
        little(first.subrange(0, 4)) == first.len(),
    ensures
        bulk_entries(first + others, 0, count + 1) == match (record_entry(first), bulk_entries(
            others,
            0,
            count,
        )) {
            (Some(Some(e)), Some(rest)) => Some(seq![e] + rest),
            (Some(None), Some(rest)) => Some(rest),
            _ => None,
        },
        bulk_entries(others, 0, 0) == Some(Seq::<EntryModel>::empty()),
{
    let s = first + others;
    assert(s.subrange(0, 4) =~= first.subrange(0, 4));
    assert(s.subrange(0, first.len() as int) =~= first);
    lemma_shifted(first, others, 0, count);
}

} // verus!
