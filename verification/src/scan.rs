//! The scan: discovery, then hashing, then the duplicate groups.
//!
//! A [`Scan`] holds the state of one scan and decides every step of it. The
//! caller does what touches the disk: it walks the directory tree and hands
//! over each entry, and it hashes the files of each batch the scan asks for
//! and hands back the outcomes. Only files that share their size with
//! another file are ever hashed.
use vstd::prelude::*;
use vstd::string::StringExecFns;

use crate::classify::{is_critical_file, is_critical_path, is_hidden, is_hidden_name};
use crate::fold::{
    content_keys, file_groups, is_batch_grouping, is_hashed, lemma_bucket_holds_its_size,
    lemma_count_batch, lemma_fold_bucket, lemma_merged_digests, lifted, merged_digests,
    with_members,
};
use crate::grouping::{
    digest_groups, digest_keys, has_twin, in_discovery_order, is_class, is_duplicate_grouping,
    is_grouped, member, rows, size_buckets, size_keys,
};
use crate::model::{FileInfo, ScanConfig, ScanError, ScanPhase, ScanProgress, Timestamp};

verus! {

/// What the file system reports of one file.
#[derive(Clone, Copy, Debug, PartialEq, Eq)]
pub struct FileMetadata {
    pub size: u64,
    pub modified_time: Option<Timestamp>,
}

/// One entry of the directory walk, as the scan reads it.
#[derive(Debug, PartialEq, Eq)]
pub struct WalkEntry {
    pub path: String,
    /// The name of the path itself and of each ancestor directory, nearest
    /// first; `None` where that step has no name or it is not valid Unicode.
    pub names: Vec<Option<String>>,
    /// Whether the entry is a regular file.
    pub is_file: bool,
    /// The file's metadata, or `None` where it could not be read.
    pub metadata: Option<FileMetadata>,
}

impl WalkEntry {
    /// Whether the entry enters the size index: it is a regular file whose
    /// metadata could be read and whose size is not below the minimum.
    pub open spec fn admitted(self, config: ScanConfig) -> bool {
        &&& self.is_file
        &&& self.metadata is Some
        &&& config.admits_size(self.metadata->0.size)
    }

    /// The record of an admitted entry.
    pub open spec fn record(self) -> FileInfo {
        FileInfo {
            path: self.path,
            size: self.metadata->0.size,
            modified_time: self.metadata->0.modified_time,
            is_critical: is_critical_path(self.names@),
        }
    }
}

/// Whether the walk visits an entry of this name, and descends into it if
/// it is a directory: hidden entries are visited only where the options
/// include them.
pub fn visits(config: &ScanConfig, name: Option<&str>) -> (visited: bool)
    ensures
        visited == (config.include_hidden || !(name matches Some(text) && is_hidden_name(text@))),
{
    config.include_hidden || !is_hidden(name)
}

/// The record of a directory entry, if the entry enters the size index.
///
/// Directories, entries whose metadata could not be read and files below
/// the minimum size give no record.
pub fn file_record(entry: WalkEntry, config: &ScanConfig) -> (record: Option<FileInfo>)
    ensures
        record == if entry.admitted(*config) {
            Some(entry.record())
        } else {
            None
        },
{
    if !entry.is_file {
        return None;
    }
    match entry.metadata {
        Some(metadata) => {
            if metadata.size >= config.min_file_size {
                let is_critical = is_critical_file(&entry.names);
                Some(
                    FileInfo {
                        path: entry.path,
                        size: metadata.size,
                        modified_time: metadata.modified_time,
                        is_critical,
                    },
                )
            } else {
                None
            }
        },
        None => None,
    }
}

/// The states of a scan. `Done` and `Failed` are terminal.
#[derive(Clone, Copy, Debug, PartialEq, Eq, Structural)]
pub enum ScanState {
    Idle,
    Discovering,
    Hashing,
    Done,
    Failed,
}

/// The digest a hashing outcome stands for, if the file could be hashed.
pub open spec fn digest_of(outcome: Result<String, String>) -> Option<Seq<char>> {
    match outcome {
        Ok(digest) => Some(digest@),
        Err(_) => None,
    }
}

/// The groups of files in a list of groups, as sequences.
pub open spec fn group_rows(groups: Vec<Vec<FileInfo>>) -> Seq<Seq<FileInfo>> {
    Seq::new(groups@.len(), |g: int| groups@[g]@)
}

/// The progress event for the file at `position`, the `current`-th file
/// hashed.
pub open spec fn hashing_event(files: Seq<FileInfo>, position: int, current: int) -> ScanProgress {
    ScanProgress {
        current: current as usize,
        total: files.len() as usize,
        current_file: files[position].path,
        phase: ScanPhase::Hashing,
    }
}

/// The failures among the outcomes of a batch, in order, each with the path
/// of its file.
pub open spec fn batch_failures(
    files: Seq<FileInfo>,
    batch: Seq<usize>,
    outcomes: Seq<Result<String, String>>,
) -> Seq<ScanError>
    decreases outcomes.len(),
{
    if outcomes.len() == 0 {
        Seq::empty()
    } else {
        let earlier = batch_failures(files, batch, outcomes.drop_last());
        match outcomes.last() {
            Ok(_) => earlier,
            Err(message) => earlier.push(
                ScanError::HashError(files[batch[outcomes.len() - 1] as int].path, message),
            ),
        }
    }
}

/// The digests and the progress events of one batch, in the order of the
/// batch. Failures are added to `failures`, each with the path of its file.
fn collect_outcomes(
    files: &Vec<FileInfo>,
    bucket: &Vec<usize>,
    outcomes: Vec<Result<String, String>>,
    processed: usize,
    failures: &mut Vec<ScanError>,
) -> (collected: (Vec<Option<String>>, Vec<ScanProgress>))
    requires
        outcomes.len() == bucket.len(),
        forall|m: int| 0 <= m < bucket.len() ==> #[trigger] bucket[m] < files.len(),
        processed + bucket.len() <= usize::MAX,
    ensures
        collected.0.len() == outcomes.len(),
        forall|m: int|
            0 <= m < outcomes.len() ==> #[trigger] digest_keys(collected.0@)[m] == digest_of(
                outcomes[m],
            ),
        collected.1.len() == outcomes.len(),
        forall|m: int|
            0 <= m < outcomes.len() ==> #[trigger] collected.1[m] == hashing_event(
                files@,
                bucket[m] as int,
                processed + m + 1,
            ),
        final(failures)@ == old(failures)@ + batch_failures(files@, bucket@, outcomes@),
{
    let ghost all = outcomes@;
    let mut digests: Vec<Option<String>> = Vec::new();
    let mut events: Vec<ScanProgress> = Vec::new();
    let mut m: usize = 0;
    for outcome in it: outcomes
        invariant
            it.seq() == all,
            m == it.index(),
            all.len() == bucket.len(),
            forall|k: int| 0 <= k < bucket.len() ==> #[trigger] bucket[k] < files.len(),
            processed + bucket.len() <= usize::MAX,
            digests.len() == m,
            events.len() == m,
            forall|k: int| 0 <= k < m ==> #[trigger] digest_keys(digests@)[k] == digest_of(all[k]),
            forall|k: int|
                0 <= k < m ==> #[trigger] events[k] == hashing_event(
                    files@,
                    bucket[k] as int,
                    processed + k + 1,
                ),
            failures@ == old(failures)@ + batch_failures(files@, bucket@, all.take(m as int)),
    {
        let ghost earlier = digests@;
        assert(all.take(m + 1).drop_last() == all.take(m as int));
        assert(all.take(m + 1).last() == outcome);
        let position: usize = bucket[m];
        let file = &files[position];
        events.push(
            ScanProgress {
                current: processed + m + 1,
                total: files.len(),
                current_file: file.path.clone(),
                phase: ScanPhase::Hashing,
            },
        );
        match outcome {
            Ok(digest) => {
                digests.push(Some(digest));
            },
            Err(message) => {
                digests.push(None);
                failures.push(ScanError::HashError(file.path.clone(), message));
            },
        }
        assert forall|k: int| 0 <= k < m + 1 implies #[trigger] digest_keys(digests@)[k]
            == digest_of(all[k]) by {
            if k < m {
                assert(digest_keys(earlier)[k] == digest_of(all[k]));
                assert(digests@[k] == earlier[k]);
            }
        }
        m = m + 1;
    }
    assert(all.take(m as int) == all);
    (digests, events)
}

/// Adds to `groups` the files that the groups of one bucket stand for.
fn materialize(
    files: &Vec<FileInfo>,
    bucket: &Vec<usize>,
    local: &Vec<Vec<usize>>,
    groups: &mut Vec<Vec<FileInfo>>,
)
    requires
        forall|m: int| 0 <= m < bucket.len() ==> #[trigger] bucket[m] < files.len(),
        forall|g: int, m: int|
            0 <= g < local.len() && 0 <= m < local[g].len()
                ==> #[trigger] local[g][m] < bucket.len(),
    ensures
        group_rows(*final(groups)) == group_rows(*old(groups)) + file_groups(
            files@,
            lifted(rows(*local), bucket@),
        ),
{
    let ghost start = group_rows(*groups);
    let ghost target = file_groups(files@, lifted(rows(*local), bucket@));
    let mut g: usize = 0;
    while g < local.len()
        invariant
            g <= local.len(),
            forall|m: int| 0 <= m < bucket.len() ==> #[trigger] bucket[m] < files.len(),
            forall|h: int, m: int|
                0 <= h < local.len() && 0 <= m < local[h].len() ==> #[trigger] local[h][m]
                    < bucket.len(),
            target == file_groups(files@, lifted(rows(*local), bucket@)),
            group_rows(*groups) == start + target.take(g as int),
        decreases local.len() - g,
    {
        let within = &local[g];
        let mut group: Vec<FileInfo> = Vec::new();
        let mut m: usize = 0;
        while m < within.len()
            invariant
                m <= within.len(),
                g < local.len(),
                within == &local[g as int],
                forall|k: int| 0 <= k < bucket.len() ==> #[trigger] bucket[k] < files.len(),
                forall|k: int| 0 <= k < within.len() ==> #[trigger] within[k] < bucket.len(),
                group.len() == m,
                forall|k: int|
                    0 <= k < m ==> #[trigger] group[k] == files[bucket[within[k] as int] as int],
            decreases within.len() - m,
        {
            let position: usize = bucket[within[m]];
            group.push(files[position].clone());
            m = m + 1;
        }
        assert(group@ =~= target[g as int]);
        let ghost earlier = group_rows(*groups);
        groups.push(group);
        assert(group_rows(*groups) =~= earlier.push(target[g as int]));
        assert(target.take(g + 1) =~= target.take(g as int).push(target[g as int]));
        g = g + 1;
    }
    assert(target.take(g as int) == target);
}

/// One scan, from the first directory entry to the duplicate groups.
///
/// The scan moves from `Idle` through `Discovering` and `Hashing` to `Done`,
/// or from `Discovering` to `Failed` when the root of the walk cannot be
/// read. A file that cannot be read or hashed never fails the scan: it is
/// left out.
pub struct Scan {
    config: ScanConfig,
    state: ScanState,
    files: Vec<FileInfo>,
    buckets: Vec<Vec<usize>>,
    cursor: usize,
    processed: usize,
    groups: Vec<Vec<FileInfo>>,
    failures: Vec<ScanError>,
    error: Option<ScanError>,
    digests: Ghost<Seq<Option<Seq<char>>>>,
    members: Ghost<Seq<Seq<usize>>>,
    seen: Ghost<Set<int>>,
}

impl Scan {
    /// The options the scan runs with.
    pub closed spec fn config(&self) -> ScanConfig {
        self.config
    }

    /// The state the scan is in.
    pub closed spec fn state(&self) -> ScanState {
        self.state
    }

    /// The files discovered, in the order of their discovery.
    pub closed spec fn files(&self) -> Seq<FileInfo> {
        self.files@
    }

    /// The size index: the candidate buckets, as positions into `files`.
    /// Empty until hashing begins.
    pub closed spec fn buckets(&self) -> Seq<Seq<usize>> {
        rows(self.buckets)
    }

    /// The number of buckets hashed so far.
    pub closed spec fn cursor(&self) -> int {
        self.cursor as int
    }

    /// The number of files hashed so far.
    pub closed spec fn processed(&self) -> int {
        self.processed as int
    }

    /// For each file, the digest that its hashing gave. `None` for a file
    /// that has not been hashed, and for one whose hashing failed.
    pub closed spec fn digests(&self) -> Seq<Option<Seq<char>>> {
        self.digests@
    }

    /// The duplicate groups found so far, as positions into `files`.
    pub closed spec fn members(&self) -> Seq<Seq<usize>> {
        self.members@
    }

    /// The duplicate groups found so far.
    pub closed spec fn groups(&self) -> Seq<Seq<FileInfo>> {
        group_rows(self.groups)
    }

    /// The files that could not be hashed so far, each with the reason.
    pub closed spec fn failures(&self) -> Seq<ScanError> {
        self.failures@
    }

    /// The error that ended the scan, in state `Failed`.
    pub closed spec fn error(&self) -> Option<ScanError> {
        self.error
    }

    /// The bucket to hash next, in state `Hashing`.
    pub open spec fn batch(&self) -> Seq<usize> {
        self.buckets()[self.cursor()]
    }

    /// Whether the size index has been built from the discovered files.
    pub open spec fn indexed(&self) -> bool {
        &&& is_duplicate_grouping(size_keys(self.files()), self.buckets())
        &&& in_discovery_order(self.buckets())
    }

    /// The count of hashed files is the number of positions in the buckets
    /// hashed so far.
    pub closed spec fn counted(&self) -> bool {
        &&& self.seen@.finite()
        &&& self.seen@.len() == self.processed
        &&& forall|x: int| #[trigger]
            self.seen@.contains(x) <==> is_hashed(rows(self.buckets), self.cursor as int, x)
    }

    /// What holds of a scan in every state.
    ///
    /// Above all: the groups found so far are exactly the duplicate groups
    /// of the files hashed so far, by size and digest.
    pub open spec fn wf(&self) -> bool {
        &&& self.counted()
        &&& self.digests().len() == self.files().len()
        &&& 0 <= self.processed() <= self.files().len()
        &&& 0 <= self.cursor() <= self.buckets().len()
        &&& is_duplicate_grouping(content_keys(self.files(), self.digests()), self.members())
        &&& self.groups() == file_groups(self.files(), self.members())
        &&& forall|i: int|
            0 <= i < self.files().len() && (#[trigger] self.digests()[i]) is Some ==> is_hashed(
                self.buckets(),
                self.cursor(),
                i,
            )
        &&& match self.state() {
            ScanState::Idle => self.files().len() == 0 && self.buckets().len() == 0
                && self.failures().len() == 0 && self.error() is None,
            ScanState::Discovering => self.buckets().len() == 0 && self.failures().len() == 0
                && self.error() is None,
            ScanState::Hashing => self.indexed() && self.cursor() < self.buckets().len()
                && self.error() is None,
            ScanState::Done => self.indexed() && self.cursor() == self.buckets().len()
                && self.error() is None,
            ScanState::Failed => self.error() is Some && !(self.error()->0 is HashError),
        }
    }

    /// A scan that has not begun.
    pub fn new(config: ScanConfig) -> (scan: Scan)
        ensures
            scan.wf(),
            scan.state() == ScanState::Idle,
            scan.config() == config,
    {
        let scan = Scan {
            config,
            state: ScanState::Idle,
            files: Vec::new(),
            buckets: Vec::new(),
            cursor: 0,
            processed: 0,
            groups: Vec::new(),
            failures: Vec::new(),
            error: None,
            digests: Ghost(Seq::empty()),
            members: Ghost(Seq::empty()),
            seen: Ghost(Set::empty()),
        };
        assert(scan.groups() =~~= file_groups(scan.files(), scan.members()));
        scan
    }

    /// The state the scan is in.
    pub fn current_state(&self) -> (state: ScanState)
        ensures
            state == self.state(),
    {
        self.state
    }

    /// The files discovered so far, in the order of their discovery.
    pub fn discovered(&self) -> (files: &Vec<FileInfo>)
        ensures
            files@ == self.files(),
    {
        &self.files
    }

    /// The files that could not be hashed so far, each with the reason.
    pub fn hash_failures(&self) -> (failures: &Vec<ScanError>)
        ensures
            failures@ == self.failures(),
    {
        &self.failures
    }

    /// Begins discovery.
    pub fn start(&mut self)
        requires
            old(self).wf(),
            old(self).state() == ScanState::Idle,
        ensures
            final(self).wf(),
            final(self).state() == ScanState::Discovering,
            final(self).config() == old(self).config(),
            final(self).files().len() == 0,
    {
        self.state = ScanState::Discovering;
    }

    /// Takes one entry of the directory walk.
    ///
    /// The entry is recorded, after the files discovered before, exactly
    /// when it is a regular file with readable metadata and a size not
    /// below the minimum. Any other entry is skipped.
    pub fn discover(&mut self, entry: WalkEntry) -> (admitted: bool)
        requires
            old(self).wf(),
            old(self).state() == ScanState::Discovering,
        ensures
            final(self).wf(),
            final(self).state() == ScanState::Discovering,
            final(self).config() == old(self).config(),
            admitted == entry.admitted(old(self).config()),
            final(self).files() == if admitted {
                old(self).files().push(entry.record())
            } else {
                old(self).files()
            },
    {
        match file_record(entry, &self.config) {
            Some(record) => {
                self.files.push(record);
                proof {
                    let before = old(self).digests();
                    self.digests@ = before.push(None);
                    let files = self.files();
                    let keys = content_keys(files, self.digests());
                    assert forall|i: int| 0 <= i < files.len()
                        implies (#[trigger] self.digests()[i]) is None by {
                        if i < before.len() {
                            assert(!is_hashed(old(self).buckets(), 0, i));
                            assert(before[i] is None);
                        }
                    }
                    if self.members().len() > 0 {
                        let group = old(self).members()[0];
                        assert(is_class(content_keys(old(self).files(), before), group));
                        assert(group[0] < before.len());
                        assert(before[group[0] as int] is None);
                    }
                    assert(self.members().len() == 0);
                    assert(self.groups() =~~= file_groups(self.files(), self.members()));
                }
                true
            },
            None => false,
        }
    }

    /// Takes a failure of the directory walk, `depth` levels below the
    /// root. A failure at the root itself is fatal and ends the scan. Any
    /// other failure is passed over: the walk goes on without that entry.
    pub fn walk_failed(&mut self, depth: usize, reason: String) -> (fatal: bool)
        requires
            old(self).wf(),
            old(self).state() == ScanState::Discovering,
        ensures
            final(self).wf(),
            fatal == (depth == 0),
            fatal ==> final(self).state() == ScanState::Failed && final(self).error() == Some(
                ScanError::TraversalError(reason),
            ),
            !fatal ==> final(self).state() == ScanState::Discovering,
            final(self).config() == old(self).config(),
            final(self).files() == old(self).files(),
    {
        if depth == 0 {
            self.fail(ScanError::TraversalError(reason));
            true
        } else {
            false
        }
    }

    /// Ends the scan with a fatal error: the root of the walk cannot be
    /// read. A failure to hash one file is never fatal.
    pub fn fail(&mut self, error: ScanError)
        requires
            old(self).wf(),
            old(self).state() == ScanState::Discovering,
            !(error is HashError),
        ensures
            final(self).wf(),
            final(self).state() == ScanState::Failed,
            final(self).error() == Some(error),
            final(self).config() == old(self).config(),
            final(self).files() == old(self).files(),
    {
        self.state = ScanState::Failed;
        self.error = Some(error);
    }

    /// Ends discovery: builds the size index and reports the number of
    /// files found, which is the total of the hashing phase.
    ///
    /// The scan is `Done` at once when no two files share their size.
    pub fn begin_hashing(&mut self) -> (event: ScanProgress)
        requires
            old(self).wf(),
            old(self).state() == ScanState::Discovering,
        ensures
            final(self).wf(),
            final(self).indexed(),
            final(self).config() == old(self).config(),
            final(self).files() == old(self).files(),
            final(self).cursor() == 0,
            final(self).processed() == 0,
            final(self).groups().len() == 0,
            final(self).state() == if final(self).buckets().len() == 0 {
                ScanState::Done
            } else {
                ScanState::Hashing
            },
            event.current == old(self).files().len(),
            event.total == old(self).files().len(),
            event.current_file@ == "Discovery complete"@,
            event.phase == ScanPhase::Discovery,
    {
        proof {
            let before = old(self).digests();
            assert forall|i: int| 0 <= i < before.len() implies (#[trigger] before[i]) is None by {
                assert(!is_hashed(old(self).buckets(), 0, i));
            }
            if self.members().len() > 0 {
                let group = self.members()[0];
                assert(is_class(content_keys(self.files(), before), group));
                assert(group[0] < before.len());
                assert(before[group[0] as int] is None);
            }
        }
        self.buckets = size_buckets(&self.files);
        self.cursor = 0;
        self.processed = 0;
        proof {
            self.seen@ = Set::empty();
            assert forall|x: int| #[trigger]
                self.seen@.contains(x) <==> is_hashed(rows(self.buckets), 0, x) by {
                assert(!is_hashed(rows(self.buckets), 0, x));
            }
            assert forall|i: int|
                0 <= i < self.files().len() && (#[trigger] self.digests()[i]) is Some
                    implies is_hashed(
                self.buckets(),
                self.cursor(),
                i,
            ) by {
                assert(old(self).digests()[i] is None);
            }
        }
        if self.buckets.len() == 0 {
            self.state = ScanState::Done;
        } else {
            self.state = ScanState::Hashing;
        }
        let total = self.files.len();
        ScanProgress {
            current: total,
            total,
            current_file: String::from_str("Discovery complete"),
            phase: ScanPhase::Discovery,
        }
    }

    /// The positions, among the files discovered, of the files to hash
    /// next.
    pub fn pending(&self) -> (batch: &Vec<usize>)
        requires
            self.wf(),
            self.state() == ScanState::Hashing,
        ensures
            batch@ == self.batch(),
            forall|m: int| 0 <= m < batch.len() ==> #[trigger] batch[m] < self.files().len(),
    {
        proof {
            lemma_bucket_holds_its_size(self.files(), self.buckets(), self.cursor());
        }
        &self.buckets[self.cursor]
    }

    /// The paths of the files to hash next, in the order in which their
    /// outcomes are to be handed to [`Scan::record`].
    pub fn pending_paths(&self) -> (paths: Vec<String>)
        requires
            self.wf(),
            self.state() == ScanState::Hashing,
        ensures
            paths.len() == self.batch().len(),
            forall|m: int|
                0 <= m < paths.len()
                    ==> 0 <= self.batch()[m] < self.files().len() && #[trigger] paths[m]
                    == self.files()[self.batch()[m] as int].path,
    {
        proof {
            lemma_bucket_holds_its_size(self.files(), self.buckets(), self.cursor());
        }
        let bucket = &self.buckets[self.cursor];
        let mut paths: Vec<String> = Vec::new();
        let mut m: usize = 0;
        while m < bucket.len()
            invariant
                m <= bucket.len(),
                paths.len() == m,
                bucket@ == self.batch(),
                forall|k: int| 0 <= k < bucket.len() ==> (#[trigger] bucket[k]) < self.files.len(),
                forall|k: int|
                    0 <= k < m ==> #[trigger] paths[k] == self.files@[bucket[k] as int].path,
            decreases bucket.len() - m,
        {
            paths.push(self.files[bucket[m]].path.clone());
            m = m + 1;
        }
        paths
    }

    /// Takes the outcomes of hashing the pending batch, one per path and in
    /// the order of [`Scan::pending_paths`]: the digest, or the reason why
    /// the file could not be hashed.
    ///
    /// Files of the batch that share their digest form a duplicate group. A
    /// file that could not be hashed is in no group, and is noted among the
    /// failures. One progress event per file is returned, counting on from
    /// the files hashed before. After the last batch the scan is `Done`.
    pub fn record(&mut self, outcomes: Vec<Result<String, String>>) -> (events: Vec<ScanProgress>)
        requires
            old(self).wf(),
            old(self).state() == ScanState::Hashing,
            outcomes.len() == old(self).batch().len(),
        ensures
            final(self).wf(),
            final(self).config() == old(self).config(),
            final(self).files() == old(self).files(),
            final(self).buckets() == old(self).buckets(),
            final(self).cursor() == old(self).cursor() + 1,
            final(self).processed() == old(self).processed() + outcomes.len(),
            final(self).state() == if final(self).cursor() == final(self).buckets().len() {
                ScanState::Done
            } else {
                ScanState::Hashing
            },
            forall|m: int|
                0 <= m < outcomes.len()
                    ==> final(self).digests()[#[trigger] old(self).batch()[m] as int]
                    == digest_of(outcomes[m]),
            forall|i: int|
                0 <= i < old(self).files().len() && !member(old(self).batch(), i)
                    ==> #[trigger] final(self).digests()[i] == old(self).digests()[i],
            final(self).members().len() >= old(self).members().len(),
            final(self).members().take(old(self).members().len() as int) == old(self).members(),
            is_batch_grouping(
                old(self).batch(),
                outcomes@.map_values(|outcome: Result<String, String>| digest_of(outcome)),
                final(self).members().skip(old(self).members().len() as int),
            ),
            events.len() == outcomes.len(),
            forall|m: int|
                0 <= m < outcomes.len() ==> #[trigger] events[m] == hashing_event(
                    old(self).files(),
                    old(self).batch()[m] as int,
                    old(self).processed() + m + 1,
                ),
            final(self).failures() == old(self).failures() + batch_failures(
                old(self).files(),
                old(self).batch(),
                outcomes@,
            ),
    {
        let ghost files = self.files();
        let ghost buckets = self.buckets();
        let ghost at = self.cursor();
        let ghost batch = self.batch();
        let ghost known = self.digests();
        let ghost found = self.members();
        let ghost seen = self.seen@;
        let ghost grown = with_members(seen, batch);
        proof {
            lemma_bucket_holds_its_size(files, buckets, at);
            lemma_count_batch(files, buckets, at, seen);
        }
        assert(self.processed + self.buckets[self.cursor as int].len() <= self.files.len());
        assert(self.cursor < self.buckets.len());
        let bucket = &self.buckets[self.cursor];
        assert(bucket@ == batch);
        let (digests, events) = collect_outcomes(
            &self.files,
            bucket,
            outcomes,
            self.processed,
            &mut self.failures,
        );
        let local = digest_groups(&digests);
        let ghost local_keys = digest_keys(digests@);
        proof {
            assert forall|g: int, m: int|
                0 <= g < local.len() && 0 <= m < local[g].len() implies #[trigger] local[g][m]
                < bucket.len() by {
                assert(is_class(local_keys, rows(local)[g]));
                assert(rows(local)[g][m] < local_keys.len());
            }
        }
        materialize(&self.files, bucket, &local, &mut self.groups);
        let count = bucket.len();
        proof {
            let next = merged_digests(known, batch, local_keys);
            lemma_merged_digests(known, batch, local_keys);
            lemma_fold_bucket(files, buckets, at, known, next, local_keys, found, rows(local));
            self.digests@ = next;
            self.members@ = found + lifted(rows(local), batch);
            self.seen@ = grown;
            assert(self.members@.take(found.len() as int) =~= found);
            assert(self.members@.skip(found.len() as int) =~= lifted(rows(local), batch));
            assert(local_keys =~= outcomes@.map_values(
                |outcome: Result<String, String>| digest_of(outcome),
            ));
            assert(file_groups(files, found + lifted(rows(local), batch)) =~~= file_groups(
                files,
                found,
            ) + file_groups(files, lifted(rows(local), batch)));
            assert forall|m: int| 0 <= m < outcomes.len() implies next[#[trigger] batch[m] as int]
                == digest_of(outcomes[m]) by {
                assert(digest_keys(digests@)[m] == digest_of(outcomes[m]));
            }
        }
        self.processed = self.processed + count;
        self.cursor = self.cursor + 1;
        if self.cursor == self.buckets.len() {
            self.state = ScanState::Done;
        }
        events
    }

    /// Ends the scan and hands out its result: the duplicate groups of a
    /// scan that is `Done`, the fatal error of one that `Failed`.
    pub fn finish(self) -> (result: Result<Vec<Vec<FileInfo>>, ScanError>)
        requires
            self.wf(),
            self.state() == ScanState::Done || self.state() == ScanState::Failed,
        ensures
            match result {
                Ok(groups) => self.state() == ScanState::Done && group_rows(groups)
                    == self.groups(),
                Err(error) => self.state() == ScanState::Failed && self.error() == Some(error),
            },
    {
        match self.error {
            Some(error) => Err(error),
            None => Ok(self.groups),
        }
    }
}

/// When a scan is done, every file that shares its size with another file
/// has been hashed.
pub proof fn law_every_candidate_is_hashed(scan: Scan, i: int)
    requires
        scan.wf(),
        scan.state() == ScanState::Done,
        0 <= i < scan.files().len(),
        has_twin(size_keys(scan.files()), i),
    ensures
        is_hashed(scan.buckets(), scan.buckets().len() as int, i),
{
    let keys = size_keys(scan.files());
    assert(keys[i] is Some);
    assert(is_grouped(scan.buckets(), i));
    let c = choose|c: int| 0 <= c < scan.buckets().len() && member(#[trigger] scan.buckets()[c], i);
    assert(member(scan.buckets()[c], i));
}

} // verus!
