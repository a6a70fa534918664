//! The decisions of the per-metric storage engine: where a metric's files
//! live, which file is active, when it rotates, which files retention
//! removes, and how stored files are read back in order.
use vstd::prelude::*;

use crate::error::StorageError;
use crate::pairs::{find_last, keys_unique, lemma_pairs_map_update, pairs_map};
use crate::query::stamp_value;

verus! {

/// A file rotates the first time its size exceeds this many bytes.
pub const ROTATION_THRESHOLD: u64 = 1048576;

/// Files older than this many seconds (seven days) are removed by a sweep.
pub const RETENTION_SECS: i64 = 604800;

/// Seconds between two retention sweeps.
pub const SWEEP_INTERVAL_SECS: u64 = 3600;

/// Whether a file of `size` bytes, just written, must be replaced.
pub open spec fn rotates(size: int) -> bool {
    size > ROTATION_THRESHOLD
}

/// Whether a file last modified at `modified` is past retention at `now`
/// (both in seconds since the epoch).
pub open spec fn expired(modified: int, now: int) -> bool {
    modified < now - RETENTION_SECS
}

/// Decides rotation after a write that left the active file at `size` bytes.
pub fn needs_rotation(size: u64) -> (r: bool)
    ensures
        r == rotates(size as int),
{
    size > ROTATION_THRESHOLD
}

/// The sizes of one metric's files, oldest first, after one more put of a
/// record: the record is appended to the active (last) file, which is
/// created if there is none, and a new empty file becomes active when that
/// write left the file rotating.
pub open spec fn after_put(sizes: Seq<int>) -> Seq<int> {
    let t = if sizes.len() == 0 {
        seq![16int]
    } else {
        sizes.update(sizes.len() - 1, sizes.last() + 16)
    };
    if rotates(t.last()) {
        t.push(0)
    } else {
        t
    }
}

/// The sizes of a metric's files after `n` puts into a store that had none.
pub open spec fn sizes_after_puts(n: nat) -> Seq<int>
    decreases n,
{
    if n == 0 {
        Seq::empty()
    } else {
        after_put(sizes_after_puts((n - 1) as nat))
    }
}

/// Number of puts after which the written bytes first exceed the threshold.
pub open spec fn puts_to_rotate() -> nat {
    (ROTATION_THRESHOLD / 16 + 1) as nat
}

proof fn lemma_single_file(k: nat)
    requires
        1 <= k < puts_to_rotate(),
    ensures
        sizes_after_puts(k) == seq![16 * k as int],
    decreases k,
{
    if k > 1 {
        lemma_single_file((k - 1) as nat);
        assert(sizes_after_puts(k) =~= seq![16 * k as int]);
    } else {
        assert(sizes_after_puts(0) =~= Seq::<int>::empty());
        assert(sizes_after_puts(1) =~= seq![16int]);
    }
}

/// Rotation: putting records for one metric until the written bytes exceed
/// the threshold leaves exactly two files, the first of at least the
/// threshold's size; the puts that follow, until the second file itself
/// rotates, all go to the second file.
pub proof fn lemma_rotation(j: nat)
    requires
        j < puts_to_rotate(),
    ensures
        16 * puts_to_rotate() > ROTATION_THRESHOLD,
        16 * (puts_to_rotate() - 1) <= ROTATION_THRESHOLD,
        sizes_after_puts(puts_to_rotate()) == seq![16 * puts_to_rotate() as int, 0],
        sizes_after_puts(puts_to_rotate() + j) == seq![16 * puts_to_rotate() as int, 16 * j as int],
    decreases j,
{
    let n = puts_to_rotate();
    if j == 0 {
        lemma_single_file((n - 1) as nat);
        assert(sizes_after_puts(n) =~= seq![16 * n as int, 0]);
    } else {
        lemma_rotation((j - 1) as nat);
        assert(sizes_after_puts(n + j) =~= seq![16 * n as int, 16 * j as int]);
    }
}

/// The sizes of a metric's files as views.
pub open spec fn size_views(s: Seq<u64>) -> Seq<int> {
    s.map_values(|x: u64| x as int)
}

/// Accounts one put of a record in the sizes of a metric's files, oldest
/// first: the record goes to the active (last) file, created if there is
/// none, and `needs_rotation` decides whether a new empty file follows.
pub fn account_put(sizes: &mut Vec<u64>)
    requires
        old(sizes)@.len() > 0 ==> old(sizes)@.last() <= u64::MAX - 16,
    ensures
        size_views(final(sizes)@) == after_put(size_views(old(sizes)@)),
{
    let ghost before = size_views(sizes@);
    let n = sizes.len();
    if n == 0 {
        sizes.push(16);
    } else {
        let last = sizes[n - 1];
        sizes.set(n - 1, last + 16);
    }
    let ghost t = size_views(sizes@);
    assert(t =~= (if before.len() == 0 {
        seq![16int]
    } else {
        before.update(before.len() - 1, before.last() + 16)
    }));
    let m = sizes.len();
    if needs_rotation(sizes[m - 1]) {
        sizes.push(0);
    }
    assert(size_views(sizes@) =~= after_put(before));
}

/// Decides whether a file last modified at `modified` is past retention.
pub fn is_expired(modified: i64, now: i64) -> (r: bool)
    ensures
        r == expired(modified as int, now as int),
{
    (modified as i128) < (now as i128) - (RETENTION_SECS as i128)
}

/// Retention: at any time, a file last modified eight days earlier is past
/// retention and one modified six days earlier is not.
pub proof fn lemma_retention(now: int)
    ensures
        expired(now - 8 * 86400, now),
        !expired(now - 6 * 86400, now),
{
}

/// A file seen by a retention sweep.
#[derive(Debug)]
pub struct FileEntry {
    pub path: String,
    pub modified: i64,
}

/// The paths of the entries of `s` that are past retention at `now`, in order.
pub open spec fn expired_paths(s: Seq<FileEntry>, now: i64) -> Seq<Seq<char>>
    decreases s.len(),
{
    if s.len() == 0 {
        Seq::empty()
    } else {
        expired_paths(s.drop_last(), now) + (if expired(s.last().modified as int, now as int) {
            seq![s.last().path@]
        } else {
            Seq::empty()
        })
    }
}

/// The views of a list of strings.
pub open spec fn views(s: Seq<String>) -> Seq<Seq<char>> {
    s.map_values(|x: String| x@)
}

/// One sweep pass: the files to delete among those listed. Every file is
/// judged by its modification time alone: an active file is not exempt.
pub fn expired_files(entries: &Vec<FileEntry>, now: i64) -> (r: Vec<String>)
    ensures
        views(r@) == expired_paths(entries@, now),
{
    let mut out: Vec<String> = Vec::new();
    let mut i: usize = 0;
    while i < entries.len()
        invariant
            i <= entries@.len(),
            views(out@) == expired_paths(entries@.take(i as int), now),
        decreases entries@.len() - i,
    {
        let e = &entries[i];
        if is_expired(e.modified, now) {
            out.push(e.path.clone());
        }
        assert(entries@.take(i + 1).drop_last() =~= entries@.take(i as int));
        assert(views(out@) =~= expired_paths(entries@.take(i + 1), now));
        i = i + 1;
    }
    assert(entries@.take(i as int) =~= entries@);
    out
}

/// The last second (9999-12-31 23:59:59 UTC) of the instants from the epoch
/// on whose minute stamp has a four-digit year.
pub const LAST_NAMEABLE_SECS: i64 = 253402300799;

/// An instant that names a file: from the epoch to the end of year 9999.
pub open spec fn nameable(secs: int) -> bool {
    0 <= secs <= LAST_NAMEABLE_SECS
}

/// The minute stamp (`YYYYMMDDHHMM`, UTC) that names a file created at `secs`
/// seconds since the epoch.
pub uninterp spec fn minute_stamp_of(secs: int) -> Seq<char>;

/// Relies on chrono's `DateTime::from_timestamp` (None when the instant is
/// out of its range, about years -262142 to 262142) and `DateTime::format`
/// with the pattern `%Y%m%d%H%M`, which writes a year from 1000 to 9999 as
/// four digits and month, day, hour and minute as two zero-padded digits.
#[verifier::external_body]
fn minute_stamp(secs: i64) -> (r: Option<String>)
    ensures
        nameable(secs as int) ==> r is Some,
        nameable(secs as int) && r is Some ==> stamp_value(r->Some_0@) is Some,
        r is Some ==> r->Some_0@ == minute_stamp_of(secs as int),
{
    match chrono::DateTime::from_timestamp(secs, 0) {
        Some(t) => Some(t.format("%Y%m%d%H%M").to_string()),
        None => None,
    }
}

/// The directory that holds the files of `metric` under `root`.
pub open spec fn dir_of(root: Seq<char>, metric: Seq<char>) -> Seq<char> {
    root + seq!['/'] + metric
}

/// The path of the file of `metric` named by `stamp`.
pub open spec fn file_path_of(root: Seq<char>, metric: Seq<char>, stamp: Seq<char>) -> Seq<char> {
    dir_of(root, metric) + seq!['/'] + stamp
}

/// `path` lies in the directory of `metric` under `root`.
pub open spec fn in_dir_of(root: Seq<char>, metric: Seq<char>, path: Seq<char>) -> bool {
    (dir_of(root, metric) + seq!['/']).is_prefix_of(path)
}

/// A metric name that stands for one directory level.
pub open spec fn plain_name(m: Seq<char>) -> bool {
    forall|i: int| 0 <= i < m.len() ==> m[i] != '/'
}

/// Files of different metrics never share a directory: for two distinct
/// metric names without a separator, no path in the directory of the one
/// lies in the directory of the other.
pub proof fn lemma_isolation(root: Seq<char>, a: Seq<char>, b: Seq<char>, p: Seq<char>)
    requires
        a != b,
        plain_name(a),
        plain_name(b),
        in_dir_of(root, a, p),
    ensures
        !in_dir_of(root, b, p),
{
    let pa = dir_of(root, a) + seq!['/'];
    let q = dir_of(root, b) + seq!['/'];
    let o: int = root.len() as int + 1;
    if q.is_prefix_of(p) {
        assert forall|i: int| 0 <= i < a.len() && i < b.len() implies a[i] == b[i] by {
            assert(p[o + i] == pa[o + i]);
            assert(pa[o + i] == a[i]);
            assert(q[o + i] == b[i]);
        }
        if a.len() == b.len() {
            assert(a =~= b);
        } else if a.len() < b.len() {
            assert(p[o + a.len() as int] == pa[o + a.len() as int]);
            assert(q[o + a.len() as int] == b[a.len() as int]);
        } else {
            assert(q[o + b.len() as int] == '/');
            assert(p[o + b.len() as int] == pa[o + b.len() as int]);
            assert(pa[o + b.len() as int] == a[b.len() as int]);
        }
    }
}

/// The files that `plan_put` names for a metric lie in its directory.
pub proof fn lemma_file_path_in_dir(root: Seq<char>, metric: Seq<char>, stamp: Seq<char>)
    ensures
        in_dir_of(root, metric, file_path_of(root, metric, stamp)),
{
    assert(file_path_of(root, metric, stamp).subrange(0, root.len() + metric.len() + 2int) =~= dir_of(
        root,
        metric,
    ) + seq!['/']);
}

/// Where the next record of a metric goes: its active file, or a new file
/// (in a directory that may have to be created first).
#[derive(Debug)]
pub enum PutTarget {
    Append { path: String },
    Create { dir: String, path: String },
}

impl PutTarget {
    /// The file that the record goes to.
    pub open spec fn path(&self) -> Seq<char> {
        match self {
            PutTarget::Append { path } => path@,
            PutTarget::Create { path, .. } => path@,
        }
    }
}

/// The engine's record of which file each metric is appending to.
#[derive(Debug)]
pub struct Engine {
    root: String,
    active: Vec<(String, String)>,
}

impl Engine {
    /// The root directory of the store.
    pub closed spec fn root(&self) -> Seq<char> {
        self.root@
    }

    /// The active file of each metric that has one.
    pub closed spec fn active(&self) -> Map<Seq<char>, Seq<char>> {
        pairs_map(self.active@)
    }

    /// Each metric has at most one entry, and its active file lies in its
    /// directory.
    pub closed spec fn wf(&self) -> bool {
        &&& keys_unique(self.active@)
        &&& forall|i: int|
            0 <= i < self.active@.len() ==> in_dir_of(
                self.root@,
                #[trigger] self.active@[i].0@,
                self.active@[i].1@,
            )
    }

    /// An engine over `root` in which no metric has an active file yet.
    pub fn new(root: String) -> (r: Engine)
        ensures
            r.wf(),
            r.root() == root@,
            r.active() == Map::<Seq<char>, Seq<char>>::empty(),
    {
        let r = Engine { root, active: Vec::new() };
        assert(r.active() =~= Map::<Seq<char>, Seq<char>>::empty());
        r
    }

    /// The root directory of the store.
    pub fn root_dir(&self) -> (r: String)
        ensures
            r@ == self.root(),
    {
        self.root.clone()
    }

    /// The directory of `metric`.
    pub fn metric_dir(&self, metric: &str) -> (r: String)
        ensures
            r@ == dir_of(self.root(), metric@),
    {
        let mut d = self.root.clone();
        d.append("/");
        d.append(metric);
        proof {
            reveal_strlit("/");
        }
        assert(d@ =~= dir_of(self.root(), metric@));
        d
    }

    /// The path of a new file for `metric`, named by the minute of `now`;
    /// `None` when the instant cannot be named.
    pub fn new_file_path(&self, metric: &str, now: i64) -> (r: Option<String>)
        ensures
            nameable(now as int) ==> r is Some,
            r is Some ==> r->Some_0@ == file_path_of(self.root(), metric@, minute_stamp_of(
                now as int,
            )),
            r is Some ==> in_dir_of(self.root(), metric@, r->Some_0@),
            nameable(now as int) ==> stamp_value(minute_stamp_of(now as int)) is Some,
    {
        match minute_stamp(now) {
            Some(stamp) => {
                let mut p = self.metric_dir(metric);
                p.append("/");
                p.append(stamp.as_str());
                proof {
                    reveal_strlit("/");
                }
                assert(p@ =~= file_path_of(self.root(), metric@, minute_stamp_of(now as int)));
                proof {
                    lemma_file_path_in_dir(self.root(), metric@, minute_stamp_of(now as int));
                }
                Some(p)
            },
            None => None,
        }
    }

    /// The active file of `metric`, if it has one.
    pub fn active_file(&self, metric: &String) -> (r: Option<String>)
        requires
            self.wf(),
        ensures
            r is Some ==> in_dir_of(self.root(), metric@, r->Some_0@),
            r is Some <==> self.active().contains_key(metric@),
            r is Some ==> r->Some_0@ == self.active()[metric@],
    {
        match find_last(&self.active, metric) {
            Some(i) => Some(self.active[i].1.clone()),
            None => None,
        }
    }

    /// Decides where a record for `metric`, put at `now`, is written: the
    /// active file, or else a new file named by the minute of `now`. Fails
    /// with `OpenFileFailed` when a new file is needed and the instant
    /// cannot be named.
    pub fn plan_put(&self, metric: &String, now: i64) -> (r: Result<PutTarget, StorageError>)
        requires
            self.wf(),
        ensures
            nameable(now as int) ==> r is Ok,
            r is Ok ==> in_dir_of(self.root(), metric@, r->Ok_0.path()),
            self.active().contains_key(metric@) ==> (r matches Ok(PutTarget::Append { path })
                && path@ == self.active()[metric@]),
            !self.active().contains_key(metric@) && r is Ok ==> (r matches Ok(
                PutTarget::Create { dir, path },
            ) && dir@ == dir_of(self.root(), metric@) && path@ == file_path_of(
                self.root(),
                metric@,
                minute_stamp_of(now as int),
            )),
            r is Err ==> r->Err_0 == StorageError::OpenFileFailed,
    {
        match self.active_file(metric) {
            Some(path) => Ok(PutTarget::Append { path }),
            None => match self.new_file_path(metric.as_str(), now) {
                Some(path) => Ok(PutTarget::Create { dir: self.metric_dir(metric.as_str()), path }),
                None => Err(StorageError::OpenFileFailed),
            },
        }
    }

    /// Decides, after a write left the active file of `metric` at `size`
    /// bytes, whether it rotates, and if so the path of its successor, named
    /// by the minute of `now`.
    pub fn plan_rotation(&self, metric: &str, size: u64, now: i64) -> (r: Result<
        Option<String>,
        StorageError,
    >)
        ensures
            !rotates(size as int) ==> r matches Ok(None),
            rotates(size as int) && r is Ok ==> (r matches Ok(Some(path)) && path@ == file_path_of(
                self.root(),
                metric@,
                minute_stamp_of(now as int),
            )),
            r is Err ==> r->Err_0 == StorageError::OpenFileFailed,
            nameable(now as int) ==> r is Ok,
    {
        if !needs_rotation(size) {
            return Ok(None);
        }
        match self.new_file_path(metric, now) {
            Some(path) => Ok(Some(path)),
            None => Err(StorageError::OpenFileFailed),
        }
    }

    /// Makes `path` the active file of `metric`, replacing (and so sealing)
    /// any file it had before.
    pub fn set_active(&mut self, metric: String, path: String)
        requires
            old(self).wf(),
            in_dir_of(old(self).root(), metric@, path@),
        ensures
            final(self).wf(),
            final(self).root() == old(self).root(),
            final(self).active() == old(self).active().insert(metric@, path@),
    {
        let ghost m = metric@;
        let ghost p = path@;
        match find_last(&self.active, &metric) {
            Some(i) => {
                proof {
                    lemma_pairs_map_update(self.active@, i as int, (metric, path));
                }
                self.active.set(i, (metric, path));
            },
            None => {
                let ghost before = self.active@;
                self.active.push((metric, path));
                assert(self.active@.drop_last() =~= before);
            },
        }
        assert(final(self).active() =~= old(self).active().insert(m, p));
    }
}

} // verus!
