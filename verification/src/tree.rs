//! A scan of a directory tree that is held in memory.
//!
//! The walk is given as the sequence of its steps, each file with its
//! content. This is the whole scan as one function, and the place where
//! its result is stated over the contents of the files.
//!
//! The steps are those of a walk that was made: an entry that the walk did
//! not visit, because it or a directory above it is hidden, is not among
//! them.
use vstd::prelude::*;

use crate::digest::{content_digest, hash_content, MAX_CONTENT_BYTES};
use crate::fold::{
    content_keys, file_groups, is_hashed, is_their_only_group, law_equal_files_share_one_group,
};
use crate::grouping::{
    has_twin, in_discovery_order, is_class, is_duplicate_grouping, is_grouped, member, size_keys,
};
use crate::model::{FileInfo, ScanConfig, ScanError, ScanPhase, ScanProgress};
use crate::scan::{digest_of, group_rows, hashing_event, Scan, ScanState, WalkEntry};

verus! {

/// A directory entry together with what reading it gives: the content, or
/// the reason why it cannot be read.
#[derive(Debug, PartialEq, Eq)]
pub struct TreeFile {
    pub entry: WalkEntry,
    pub content: Result<Vec<u8>, String>,
}

/// One step of a directory walk.
#[derive(Debug, PartialEq, Eq)]
pub enum WalkStep {
    /// The walk reached an entry.
    Found(TreeFile),
    /// The walk could not read an entry, `depth` levels below the root.
    Failed { depth: usize, reason: String },
}

impl WalkStep {
    /// Whether the step is a failure to read the root itself.
    pub open spec fn is_fatal(self) -> bool {
        self matches WalkStep::Failed { depth, .. } && depth == 0
    }

    /// Whether the step is an entry that enters the size index.
    pub open spec fn is_admitted(self, config: ScanConfig) -> bool {
        self matches WalkStep::Found(file) && file.entry.admitted(config)
    }
}

/// The first failure to read the root among the first `n` steps.
pub open spec fn root_failure(walk: Seq<WalkStep>, n: int) -> Option<String>
    decreases n,
{
    if n <= 0 {
        None
    } else if root_failure(walk, n - 1) is Some {
        root_failure(walk, n - 1)
    } else if walk[n - 1].is_fatal() {
        Some(walk[n - 1]->reason)
    } else {
        None
    }
}

/// The files that the first `n` steps discover, in order.
pub open spec fn discovered(walk: Seq<WalkStep>, config: ScanConfig, n: int) -> Seq<FileInfo>
    decreases n,
{
    if n <= 0 {
        Seq::empty()
    } else if walk[n - 1].is_admitted(config) {
        discovered(walk, config, n - 1).push(walk[n - 1]->Found_0.entry.record())
    } else {
        discovered(walk, config, n - 1)
    }
}

/// What reading each discovered file gives, in the order of the files.
pub open spec fn contents(walk: Seq<WalkStep>, config: ScanConfig, n: int) -> Seq<
    Result<Vec<u8>, String>,
>
    decreases n,
{
    if n <= 0 {
        Seq::empty()
    } else if walk[n - 1].is_admitted(config) {
        contents(walk, config, n - 1).push(walk[n - 1]->Found_0.content)
    } else {
        contents(walk, config, n - 1)
    }
}

/// The digest that hashing a file gives: none for a file that cannot be
/// read or is too long to hash.
pub open spec fn hashing_outcome(content: Result<Vec<u8>, String>) -> Option<Seq<char>> {
    match content {
        Ok(bytes) => if bytes@.len() < MAX_CONTENT_BYTES {
            Some(content_digest(bytes@))
        } else {
            None
        },
        Err(_) => None,
    }
}

/// The digest of every file, whether or not the scan has to hash it.
pub open spec fn digests_of(contents: Seq<Result<Vec<u8>, String>>) -> Seq<Option<Seq<char>>> {
    Seq::new(contents.len(), |i: int| hashing_outcome(contents[i]))
}

/// Whether `groups` are the duplicate groups of `files` with these
/// contents: the classes, of two files or more, of the files that can be
/// hashed, by size and digest; each group in the order of discovery.
pub open spec fn are_duplicates(
    groups: Seq<Seq<FileInfo>>,
    files: Seq<FileInfo>,
    contents: Seq<Result<Vec<u8>, String>>,
) -> bool {
    exists|members: Seq<Seq<usize>>|
        is_duplicate_grouping(content_keys(files, digests_of(contents)), members) && groups
            == file_groups(files, members)
}

/// Hashes one file of the tree.
fn hash_outcome(content: &Result<Vec<u8>, String>, buffer_size: usize) -> (outcome: Result<
    String,
    String,
>)
    requires
        buffer_size > 0,
    ensures
        digest_of(outcome) == hashing_outcome(*content),
{
    match content {
        Ok(bytes) => {
            if (bytes.len() as u64) < MAX_CONTENT_BYTES {
                Ok(hash_content(bytes.as_slice(), buffer_size))
            } else {
                Err(String::from_str("file too long to hash"))
            }
        },
        Err(reason) => Err(reason.clone()),
    }
}

/// Hashing the files that share their size is enough: the groups by size
/// and digest are the same whether or not the other files are hashed too.
proof fn lemma_hashing_candidates_is_enough(
    files: Seq<FileInfo>,
    known: Seq<Option<Seq<char>>>,
    full: Seq<Option<Seq<char>>>,
    members: Seq<Seq<usize>>,
)
    requires
        known.len() == files.len(),
        full.len() == files.len(),
        is_duplicate_grouping(content_keys(files, known), members),
        forall|i: int| 0 <= i < files.len() && (#[trigger] known[i]) is Some
            ==> known[i] == full[i],
        forall|i: int|
            0 <= i < files.len() && has_twin(size_keys(files), i)
                ==> #[trigger] known[i] == full[i],
    ensures
        is_duplicate_grouping(content_keys(files, full), members),
{
    let before = content_keys(files, known);
    let after = content_keys(files, full);
    let sizes = size_keys(files);
    assert forall|g: int| 0 <= g < members.len() implies is_class(after, #[trigger] members[g]) by {
        let group = members[g];
        assert(is_class(before, group));
        assert forall|m: int| 0 <= m < group.len() implies after[#[trigger] group[m] as int]
            == before[group[m] as int] by {
            assert(group[m] < before.len());
            assert(before[group[m] as int] == before[group[0] as int]);
            assert(known[group[m] as int] is Some);
        }
        assert(after[group[0] as int] == before[group[0] as int]);
        assert forall|i: int|
            0 <= i < after.len() && #[trigger] after[i] == after[group[0] as int] implies member(
            group,
            i,
        ) by {
            let first = group[0] as int;
            if i != first {
                assert(sizes[first] == sizes[i]);
                assert(has_twin(sizes, i));
                assert(before[i] == before[first]);
            } else {
                assert(group[0] == i);
            }
        }
    }
    assert forall|g: int, h: int|
        0 <= g < members.len() && 0 <= h < members.len() && g != h implies after[(
    #[trigger] members[g])[0] as int] != after[(#[trigger] members[h])[0] as int] by {
        assert(is_class(before, members[g]));
        assert(is_class(before, members[h]));
        assert(before[members[g][0] as int] != before[members[h][0] as int]);
        assert(known[members[g][0] as int] is Some);
        assert(known[members[h][0] as int] is Some);
    }
    assert forall|i: int|
        0 <= i < after.len() && (#[trigger] after[i]) is Some && has_twin(after, i)
            implies is_grouped(
        members,
        i,
    ) by {
        let j = choose|j: int| 0 <= j < after.len() && j != i && #[trigger] after[j] == after[i];
        assert(sizes[j] == sizes[i]);
        assert(sizes[i] == sizes[j]);
        assert(has_twin(sizes, i));
        assert(has_twin(sizes, j));
        assert(before[j] == before[i]);
        assert(has_twin(before, i));
        assert(before[i] is Some);
    }
}

/// The positions of the files hashed in the first `upto` buckets, in the
/// order of hashing: bucket after bucket, each in the order of discovery.
pub open spec fn hashing_order(buckets: Seq<Seq<usize>>, upto: int) -> Seq<usize>
    decreases upto,
{
    if upto <= 0 {
        Seq::empty()
    } else {
        hashing_order(buckets, upto - 1) + buckets[upto - 1]
    }
}

/// The progress events of hashing the files at these positions, in order:
/// the count goes up by one with every file, the total stays.
pub open spec fn hashing_events(files: Seq<FileInfo>, order: Seq<usize>) -> Seq<ScanProgress> {
    Seq::new(order.len(), |k: int| hashing_event(files, order[k] as int, k + 1))
}

/// Whether `event` marks the end of discovery: it names the number of
/// files discovered, which is the total of the hashing phase.
pub open spec fn ends_discovery(event: ScanProgress, files: Seq<FileInfo>) -> bool {
    &&& event.current == files.len()
    &&& event.total == files.len()
    &&& event.current_file@ == "Discovery complete"@
    &&& event.phase == ScanPhase::Discovery
}

/// Whether `events` are the progress events of a scan of `files`: one
/// event at the end of discovery, then one for every file that shares its
/// size with another file, bucket after bucket of the size index.
pub open spec fn are_progress_of(events: Seq<ScanProgress>, files: Seq<FileInfo>) -> bool {
    exists|buckets: Seq<Seq<usize>>|
        is_duplicate_grouping(size_keys(files), buckets) && in_discovery_order(buckets)
            && events.len() > 0 && ends_discovery(events[0], files) && events.skip(1)
            == hashing_events(files, #[trigger] hashing_order(buckets, buckets.len() as int))
}

/// Hashes the files at the positions of one batch.
fn hash_batch(read: &Vec<Result<Vec<u8>, String>>, batch: &Vec<usize>, buffer_size: usize) -> (outcomes:
    Vec<Result<String, String>>)
    requires
        buffer_size > 0,
        forall|k: int| 0 <= k < batch.len() ==> #[trigger] batch[k] < read.len(),
    ensures
        outcomes.len() == batch.len(),
        forall|k: int|
            0 <= k < batch.len() ==> digest_of(#[trigger] outcomes[k]) == hashing_outcome(
                read[batch[k] as int],
            ),
{
    let mut outcomes: Vec<Result<String, String>> = Vec::new();
    let mut m: usize = 0;
    while m < batch.len()
        invariant
            m <= batch.len(),
            outcomes.len() == m,
            buffer_size > 0,
            forall|k: int| 0 <= k < batch.len() ==> #[trigger] batch[k] < read.len(),
            forall|k: int|
                0 <= k < m ==> digest_of(#[trigger] outcomes[k]) == hashing_outcome(
                    read[batch[k] as int],
                ),
        decreases batch.len() - m,
    {
        outcomes.push(hash_outcome(&read[batch[m]], buffer_size));
        m = m + 1;
    }
    outcomes
}

/// Scans a tree for duplicate files, and adds the progress events of the
/// scan to `progress`.
///
/// The scan fails, with the reason, exactly when a step of the walk fails
/// to read the root; it then reports no progress. Any other failure of the
/// walk is passed over. The files discovered are the entries that are
/// regular files with readable metadata and a size not below the minimum.
/// Of these, the files of one size and one digest form a duplicate group
/// where they are two or more; a file that cannot be read or hashed is in
/// no group.
pub fn scan_directory(
    walk: Vec<WalkStep>,
    progress: &mut Vec<ScanProgress>,
    config: &ScanConfig,
) -> (result: Result<Vec<Vec<FileInfo>>, ScanError>)
    requires
        config.valid(),
    ensures
        match root_failure(walk@, walk@.len() as int) {
            Some(reason) => {
                &&& result == Err::<Vec<Vec<FileInfo>>, ScanError>(
                    ScanError::TraversalError(reason),
                )
                &&& final(progress)@ == old(progress)@
            },
            None => {
                &&& result matches Ok(groups) && are_duplicates(
                    group_rows(groups),
                    discovered(walk@, *config, walk@.len() as int),
                    contents(walk@, *config, walk@.len() as int),
                )
                &&& final(progress)@.len() > old(progress)@.len()
                &&& final(progress)@.take(old(progress)@.len() as int) == old(progress)@
                &&& are_progress_of(
                    final(progress)@.skip(old(progress)@.len() as int),
                    discovered(walk@, *config, walk@.len() as int),
                )
            },
        },
{
    let ghost steps = walk@;
    let ghost earlier = progress@;
    let mut scan = Scan::new(*config);
    scan.start();
    let mut read: Vec<Result<Vec<u8>, String>> = Vec::new();
    let count = walk.len();
    let mut n: usize = 0;
    for step in it: walk
        invariant
            it.seq() == steps,
            n == it.index(),
            steps.len() == count,
            scan.wf(),
            scan.state() == ScanState::Discovering,
            scan.config() == *config,
            root_failure(steps, n as int) is None,
            scan.files() == discovered(steps, *config, n as int),
            read@ == contents(steps, *config, n as int),
            progress@ == earlier,
    {
        match step {
            WalkStep::Found(file) => {
                if scan.discover(file.entry) {
                    read.push(file.content);
                }
            },
            WalkStep::Failed { depth, reason } => {
                if scan.walk_failed(depth, reason) {
                    proof {
                        lemma_root_failure_stays(steps, n + 1, steps.len() as int);
                    }
                    return scan.finish();
                }
            },
        }
        n = n + 1;
    }
    let ghost files = scan.files();
    let ghost full = digests_of(read@);
    proof {
        lemma_same_length(steps, *config, n as int);
    }
    let first = scan.begin_hashing();
    progress.push(first);
    let ghost buckets = scan.buckets();
    while scan.current_state() == ScanState::Hashing
        invariant
            scan.wf(),
            scan.state() == ScanState::Hashing || scan.state() == ScanState::Done,
            scan.indexed(),
            scan.files() == files,
            scan.buckets() == buckets,
            read@.len() == files.len(),
            full == digests_of(read@),
            config.valid(),
            forall|i: int|
                0 <= i < files.len() && is_hashed(buckets, scan.cursor(), i)
                    ==> #[trigger] scan.digests()[i] == full[i],
            scan.processed() == hashing_order(buckets, scan.cursor()).len(),
            progress@ == earlier.push(first) + hashing_events(
                files,
                hashing_order(buckets, scan.cursor()),
            ),
        decreases buckets.len() - scan.cursor(),
    {
        let ghost before = scan.digests();
        let ghost at = scan.cursor();
        let ghost positions = scan.batch();
        let ghost reported = progress@;
        let outcomes = hash_batch(&read, scan.pending(), config.buffer_size);
        let mut events = scan.record(outcomes);
        progress.append(&mut events);
        proof {
            assert forall|i: int|
                0 <= i < files.len() && is_hashed(buckets, scan.cursor(), i)
                implies #[trigger] scan.digests()[i] == full[i] by {
                if member(positions, i) {
                    let k = choose|k: int| 0 <= k < positions.len() && #[trigger] positions[k] == i;
                    assert(scan.digests()[positions[k] as int] == digest_of(outcomes[k]));
                } else {
                    let c = choose|c: int|
                        0 <= c < at + 1 && c < buckets.len() && member(#[trigger] buckets[c], i);
                    assert(c < at);
                    assert(is_hashed(buckets, at, i));
                    assert(before[i] == full[i]);
                }
            }
            let order = hashing_order(buckets, at);
            assert(hashing_order(buckets, at + 1) == order + positions);
            assert(progress@ =~= earlier.push(first) + hashing_events(files, order + positions));
        }
    }
    proof {
        let known = scan.digests();
        let members = scan.members();
        assert forall|i: int|
            0 <= i < files.len() && has_twin(size_keys(files), i) implies #[trigger] known[i]
            == full[i] by {
            crate::scan::law_every_candidate_is_hashed(scan, i);
        }
        lemma_hashing_candidates_is_enough(files, known, full, members);
        let order = hashing_order(buckets, buckets.len() as int);
        let fresh = progress@.skip(earlier.len() as int);
        assert(progress@.take(earlier.len() as int) =~= earlier);
        assert(fresh[0] == first);
        assert(fresh.skip(1) =~= hashing_events(files, order));
    }
    scan.finish()
}

/// A failure to read the root is still the first after more steps.
proof fn lemma_root_failure_stays(walk: Seq<WalkStep>, n: int, later: int)
    requires
        0 <= n <= later,
        root_failure(walk, n) is Some,
    ensures
        root_failure(walk, later) == root_failure(walk, n),
    decreases later - n,
{
    if n < later {
        lemma_root_failure_stays(walk, n, later - 1);
    }
}

/// There are as many contents as files.
proof fn lemma_same_length(walk: Seq<WalkStep>, config: ScanConfig, n: int)
    ensures
        contents(walk, config, n).len() == discovered(walk, config, n).len(),
    decreases n,
{
    if n > 0 {
        lemma_same_length(walk, config, n - 1);
    }
}

/// Two files of identical content that were discovered with the same size
/// are together in exactly one duplicate group.
pub proof fn law_identical_files_share_one_group(
    files: Seq<FileInfo>,
    contents: Seq<Result<Vec<u8>, String>>,
    members: Seq<Seq<usize>>,
    i: int,
    j: int,
)
    requires
        contents.len() == files.len(),
        is_duplicate_grouping(content_keys(files, digests_of(contents)), members),
        0 <= i < files.len(),
        0 <= j < files.len(),
        i != j,
        files[i].size == files[j].size,
        contents[i] is Ok,
        contents[j] is Ok,
        contents[i]->Ok_0@ == contents[j]->Ok_0@,
        contents[i]->Ok_0@.len() < MAX_CONTENT_BYTES,
    ensures
        exists|g: int| is_their_only_group(members, g, i, j),
{
    law_equal_files_share_one_group(files, digests_of(contents), members, i, j);
}

} // verus!
