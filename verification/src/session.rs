//! A session with the user: the duplicate groups of a scan, the keep or
//! delete flag of every file, the bookkeeping of deletions, and the status
//! message that tells the user what the last action did.
//!
//! Nothing here touches the disk. The caller deletes the files that are
//! marked and reports how each deletion went; the session keeps track of
//! which files are gone and which groups remain.
use vstd::prelude::*;
use vstd::string::StringExecFns;

use crate::model::{FileInfo, ScanConfig, ScanError};
use crate::select::{every, KeepNewestStrategy, KeepOldestStrategy, SelectionStrategy};
use crate::text::{count_text, decimal, first, join, join_first, joined, texts};

verus! {

/// A duplicate group as shown to the user: the files, and for each file
/// whether it is kept. A file whose flag is `false` is marked for deletion.
#[derive(Debug, PartialEq, Eq)]
pub struct DuplicateGroup {
    pub files: Vec<FileInfo>,
    pub selected: Vec<bool>,
}

impl DuplicateGroup {
    /// The number of files that have a flag.
    pub open spec fn pairs(self) -> int {
        if self.files@.len() <= self.selected@.len() {
            self.files@.len() as int
        } else {
            self.selected@.len() as int
        }
    }

    /// Whether the file at position `i` is marked for deletion.
    pub open spec fn marked(self, i: int) -> bool {
        0 <= i < self.pairs() && !self.selected@[i]
    }

    /// The bytes that deleting the marked files among the first `n` frees.
    pub open spec fn savings_upto(self, n: int) -> int
        decreases n,
    {
        if n <= 0 {
            0
        } else if self.marked(n - 1) {
            self.savings_upto(n - 1) + self.files@[n - 1].size
        } else {
            self.savings_upto(n - 1)
        }
    }

    /// The bytes that deleting the marked files frees.
    pub open spec fn savings(self) -> int {
        self.savings_upto(self.pairs())
    }

    /// A group fresh from a scan: every file is kept.
    pub fn new(files: Vec<FileInfo>) -> (group: DuplicateGroup)
        ensures
            group.files == files,
            group.selected@ == every(files@.len(), true),
    {
        let mut selected: Vec<bool> = Vec::new();
        let mut i: usize = 0;
        while i < files.len()
            invariant
                i <= files.len(),
                selected.len() == i,
                forall|k: int| 0 <= k < i ==> selected[k],
            decreases files.len() - i,
        {
            selected.push(true);
            i = i + 1;
        }
        assert(selected@ =~= every(files@.len(), true));
        DuplicateGroup { files, selected }
    }

    /// The bytes that deleting the marked files frees, at most `u64::MAX`.
    pub fn marked_bytes(&self) -> (bytes: u64)
        ensures
            bytes == saturated(self.savings()),
    {
        let count = if self.files.len() <= self.selected.len() {
            self.files.len()
        } else {
            self.selected.len()
        };
        let mut bytes: u64 = 0;
        let mut i: usize = 0;
        while i < count
            invariant
                i <= count,
                count == self.pairs(),
                bytes == saturated(self.savings_upto(i as int)),
                self.savings_upto(i as int) >= 0,
            decreases count - i,
        {
            if !self.selected[i] {
                bytes = bytes.saturating_add(self.files[i].size);
            }
            i = i + 1;
        }
        bytes
    }
}

/// A byte count as a `u64`: the count itself, or `u64::MAX` where it is
/// larger.
pub open spec fn saturated(bytes: int) -> u64 {
    if bytes > u64::MAX {
        u64::MAX
    } else {
        bytes as u64
    }
}

/// The bytes that deleting the marked files of all groups frees.
pub open spec fn total_savings(groups: Seq<DuplicateGroup>) -> int
    decreases groups.len(),
{
    if groups.len() == 0 {
        0
    } else {
        total_savings(groups.drop_last()) + groups.last().savings()
    }
}

/// The savings of a group are never negative.
pub proof fn lemma_savings_nonnegative(group: DuplicateGroup, n: int)
    ensures
        group.savings_upto(n) >= 0,
    decreases n,
{
    if n > 0 {
        lemma_savings_nonnegative(group, n - 1);
    }
}

/// The savings of a list of groups are never negative.
pub proof fn lemma_total_savings_nonnegative(groups: Seq<DuplicateGroup>)
    ensures
        total_savings(groups) >= 0,
    decreases groups.len(),
{
    if groups.len() > 0 {
        lemma_total_savings_nonnegative(groups.drop_last());
        lemma_savings_nonnegative(groups.last(), groups.last().pairs());
    }
}

/// The bytes that deleting the marked files of all groups frees, at most
/// `u64::MAX`.
pub fn potential_savings(groups: &Vec<DuplicateGroup>) -> (bytes: u64)
    ensures
        bytes == saturated(total_savings(groups@)),
{
    let mut bytes: u64 = 0;
    let mut g: usize = 0;
    while g < groups.len()
        invariant
            g <= groups.len(),
            bytes == saturated(total_savings(groups@.take(g as int))),
        decreases groups.len() - g,
    {
        proof {
            assert(groups@.take(g + 1).drop_last() == groups@.take(g as int));
            lemma_total_savings_nonnegative(groups@.take(g as int));
            lemma_savings_nonnegative(groups@[g as int], groups@[g as int].pairs());
        }
        bytes = bytes.saturating_add(groups[g].marked_bytes());
        g = g + 1;
    }
    assert(groups@.take(g as int) == groups@);
    bytes
}

/// The state of a session.
#[derive(Debug, PartialEq, Eq)]
pub struct AppState {
    /// The directory to scan.
    pub selected_dir: String,
    /// Whether a scan is running.
    pub scanning: bool,
    pub duplicate_groups: Vec<DuplicateGroup>,
    /// The bytes that deleting the marked files frees, as last calculated.
    pub total_size_savings: u64,
    pub status_message: String,
    pub config: ScanConfig,
    /// In preview mode nothing is deleted: deletions are only counted.
    pub preview_mode: bool,
}

impl Default for AppState {
    fn default() -> (state: Self)
        ensures
            state.selected_dir@.len() == 0,
            !state.scanning,
            state.duplicate_groups@.len() == 0,
            state.total_size_savings == 0,
            state.status_message@.len() == 0,
            state.config.buffer_size == 65536,
            !state.config.include_hidden,
            state.config.min_file_size == 1,
            state.config.max_threads is None,
            !state.preview_mode,
    {
        AppState {
            selected_dir: String::new(),
            scanning: false,
            duplicate_groups: Vec::new(),
            total_size_savings: 0,
            status_message: String::new(),
            config: ScanConfig::default(),
            preview_mode: false,
        }
    }
}

impl AppState {
    /// Whether a scan can begin: a directory is chosen and no scan runs.
    pub open spec fn can_scan(self) -> bool {
        self.selected_dir@.len() > 0 && !self.scanning
    }

    /// What differs between two states apart from the groups, the savings
    /// and the status message: nothing.
    pub open spec fn same_options(self, other: AppState) -> bool {
        &&& self.selected_dir == other.selected_dir
        &&& self.scanning == other.scanning
        &&& self.config == other.config
        &&& self.preview_mode == other.preview_mode
    }

    /// What differs between two states apart from the groups and the
    /// savings: nothing.
    pub open spec fn same_settings(self, other: AppState) -> bool {
        &&& self.same_options(other)
        &&& self.status_message == other.status_message
    }

    /// Begins a scan, if one can begin: the results of the scan before are
    /// dropped and the status is cleared. Otherwise nothing changes.
    pub fn begin_scan(&mut self) -> (started: bool)
        ensures
            started == old(self).can_scan(),
            !started ==> *final(self) == *old(self),
            started ==> {
                &&& final(self).scanning
                &&& final(self).duplicate_groups@.len() == 0
                &&& final(self).total_size_savings == 0
                &&& final(self).status_message@.len() == 0
                &&& final(self).selected_dir == old(self).selected_dir
                &&& final(self).config == old(self).config
                &&& final(self).preview_mode == old(self).preview_mode
            },
    {
        if self.selected_dir.as_str().is_empty() || self.scanning {
            return false;
        }
        self.scanning = true;
        self.duplicate_groups = Vec::new();
        self.total_size_savings = 0;
        self.status_message = String::new();
        true
    }

    /// Takes the result of the scan. The scan no longer runs. Where it
    /// succeeded, its groups are shown with every file kept, and the number
    /// of groups is returned; where it failed, the error is returned and
    /// the groups stay as they were. Either way the status message says
    /// how the scan ended.
    pub fn finish_scan(
        &mut self,
        result: Result<Vec<Vec<FileInfo>>, ScanError>,
    ) -> (outcome: Result<usize, ScanError>)
        ensures
            !final(self).scanning,
            final(self).selected_dir == old(self).selected_dir,
            final(self).status_message@ == scan_message(result),
            final(self).config == old(self).config,
            final(self).preview_mode == old(self).preview_mode,
            match result {
                Ok(found) => {
                    &&& outcome == Ok::<usize, ScanError>(found@.len() as usize)
                    &&& final(self).duplicate_groups@.len() == found@.len()
                    &&& forall|g: int|
                        0 <= g < found@.len()
                            ==> (#[trigger] final(self).duplicate_groups@[g]).files
                            == found@[g] && final(self).duplicate_groups@[g].selected@ == every(
                            found@[g]@.len(),
                            true,
                        )
                    &&& final(self).total_size_savings == 0
                },
                Err(error) => {
                    &&& outcome == Err::<usize, ScanError>(error)
                    &&& final(self).duplicate_groups == old(self).duplicate_groups
                    &&& final(self).total_size_savings == old(self).total_size_savings
                },
            },
    {
        self.scanning = false;
        match result {
            Ok(found) => {
                let ghost all = found@;
                let mut groups: Vec<DuplicateGroup> = Vec::new();
                for files in it: found
                    invariant
                        it.seq() == all,
                        groups.len() == it.index(),
                        forall|g: int|
                            0 <= g < groups.len() ==> (#[trigger] groups@[g]).files == all[g]
                                && groups@[g].selected@ == every(all[g]@.len(), true),
                        total_savings(groups@) == 0,
                {
                    let group = DuplicateGroup::new(files);
                    proof {
                        lemma_nothing_marked_saves_nothing(group, group.pairs());
                        assert(groups@.push(group).drop_last() == groups@);
                    }
                    groups.push(group);
                }
                let count = groups.len();
                self.duplicate_groups = groups;
                self.total_size_savings = 0;
                if count == 0 {
                    self.status_message = String::from_str("No duplicates found.");
                } else {
                    let mut message = String::from_str("Found ");
                    message.append(count_text(count).as_str());
                    message.append(" duplicate group(s)!");
                    self.status_message = message;
                }
                Ok(count)
            },
            Err(error) => {
                let mut message = String::from_str("Scan error: ");
                message.append(error.describe().as_str());
                self.status_message = message;
                Err(error)
            },
        }
    }

    /// Calculates the bytes that deleting the marked files frees.
    pub fn calculate_savings(&mut self)
        ensures
            final(self).total_size_savings == saturated(total_savings(old(self).duplicate_groups@)),
            final(self).duplicate_groups == old(self).duplicate_groups,
            final(self).same_settings(*old(self)),
    {
        self.total_size_savings = potential_savings(&self.duplicate_groups);
    }

    /// Whether `self` is what `before` becomes when the flags of the group
    /// at `group_idx` are replaced by `selected` and the savings are
    /// calculated anew. Beyond the last group no flag changes.
    pub open spec fn reselects(
        self,
        before: AppState,
        group_idx: int,
        selected: Seq<bool>,
    ) -> bool {
        let groups = self.duplicate_groups@;
        let earlier = before.duplicate_groups@;
        &&& self.same_settings(before)
        &&& groups.len() == earlier.len()
        &&& forall|g: int|
            0 <= g < earlier.len() ==> (#[trigger] groups[g]).files == earlier[g].files
        &&& forall|g: int|
            0 <= g < earlier.len() && g != group_idx ==> #[trigger] groups[g] == earlier[g]
        &&& 0 <= group_idx < earlier.len() ==> groups[group_idx].selected@ == selected
        &&& self.total_size_savings == saturated(total_savings(groups))
    }

    /// Lets a strategy choose the files to keep in one group, and
    /// calculates the savings anew. A position beyond the last group
    /// changes no flag.
    pub fn apply_selection_strategy<S: SelectionStrategy>(&mut self, strategy: &S, group_idx: usize)
        ensures
            final(self).reselects(
                *old(self),
                group_idx as int,
                strategy.selection(old(self).duplicate_groups@[group_idx as int].files@),
            ),
    {
        if group_idx < self.duplicate_groups.len() {
            let selected = strategy.select(self.duplicate_groups[group_idx].files.as_slice());
            self.duplicate_groups[group_idx].selected = selected;
        }
        self.total_size_savings = potential_savings(&self.duplicate_groups);
    }

    /// Keeps only the newest file of one group.
    pub fn select_newest(&mut self, group_idx: usize)
        ensures
            final(self).reselects(
                *old(self),
                group_idx as int,
                KeepNewestStrategy.selection(old(self).duplicate_groups@[group_idx as int].files@),
            ),
    {
        self.apply_selection_strategy(&KeepNewestStrategy, group_idx);
    }

    /// Keeps only the oldest file of one group.
    pub fn select_oldest(&mut self, group_idx: usize)
        ensures
            final(self).reselects(
                *old(self),
                group_idx as int,
                KeepOldestStrategy.selection(old(self).duplicate_groups@[group_idx as int].files@),
            ),
    {
        self.apply_selection_strategy(&KeepOldestStrategy, group_idx);
    }

    /// Whether `self` is what `before` becomes when a strategy chooses the
    /// files to keep in every group and the savings are calculated anew.
    pub open spec fn reselects_all<S: SelectionStrategy>(
        self,
        before: AppState,
        strategy: S,
    ) -> bool {
        let groups = self.duplicate_groups@;
        let earlier = before.duplicate_groups@;
        &&& self.same_settings(before)
        &&& groups.len() == earlier.len()
        &&& forall|g: int|
            0 <= g < earlier.len() ==> (#[trigger] groups[g]).files == earlier[g].files
                && groups[g].selected@ == strategy.selection(earlier[g].files@)
        &&& self.total_size_savings == saturated(total_savings(groups))
    }

    /// Lets a strategy choose the files to keep in every group, and
    /// calculates the savings anew.
    pub fn bulk_apply_selection_strategy<S: SelectionStrategy>(&mut self, strategy: &S)
        ensures
            final(self).reselects_all(*old(self), *strategy),
    {
        let mut g: usize = 0;
        while g < self.duplicate_groups.len()
            invariant
                g <= self.duplicate_groups.len(),
                self.same_settings(*old(self)),
                self.duplicate_groups@.len() == old(self).duplicate_groups@.len(),
                forall|h: int|
                    0 <= h < old(self).duplicate_groups@.len() ==> (
                    #[trigger] self.duplicate_groups@[h]).files
                        == old(self).duplicate_groups@[h].files,
                forall|h: int|
                    0 <= h < g ==> (#[trigger] self.duplicate_groups@[h]).selected@
                        == strategy.selection(old(self).duplicate_groups@[h].files@),
            decreases self.duplicate_groups.len() - g,
        {
            let selected = strategy.select(self.duplicate_groups[g].files.as_slice());
            self.duplicate_groups[g].selected = selected;
            g = g + 1;
        }
        self.total_size_savings = potential_savings(&self.duplicate_groups);
    }

    /// Keeps only the newest file of every group.
    pub fn bulk_select_newest(&mut self)
        ensures
            final(self).reselects_all(*old(self), KeepNewestStrategy),
    {
        self.bulk_apply_selection_strategy(&KeepNewestStrategy);
    }

    /// Keeps only the oldest file of every group.
    pub fn bulk_select_oldest(&mut self)
        ensures
            final(self).reselects_all(*old(self), KeepOldestStrategy),
    {
        self.bulk_apply_selection_strategy(&KeepOldestStrategy);
    }

    /// Replaces the groups by groups read from an export, calculates the
    /// savings anew, says in the status message how many groups were read,
    /// and returns that number.
    pub fn import_results(&mut self, groups: Vec<DuplicateGroup>) -> (count: usize)
        ensures
            count == groups@.len(),
            final(self).duplicate_groups == groups,
            final(self).total_size_savings == saturated(total_savings(groups@)),
            final(self).status_message@ == import_message(groups@.len()),
            final(self).same_options(*old(self)),
    {
        self.duplicate_groups = groups;
        self.total_size_savings = potential_savings(&self.duplicate_groups);
        let count = self.duplicate_groups.len();
        let mut message = String::from_str("Imported ");
        message.append(count_text(count).as_str());
        message.append(" duplicate group(s)");
        self.status_message = message;
        count
    }
}

/// The status message after a scan: the number of groups found, or the
/// error that ended the scan.
pub open spec fn scan_message(result: Result<Vec<Vec<FileInfo>>, ScanError>) -> Seq<char> {
    match result {
        Ok(found) => if found@.len() == 0 {
            "No duplicates found."@
        } else {
            "Found "@ + decimal(found@.len()) + " duplicate group(s)!"@
        },
        Err(error) => "Scan error: "@ + error.text(),
    }
}

/// The status message after an import of `count` groups.
pub open spec fn import_message(count: nat) -> Seq<char> {
    "Imported "@ + decimal(count) + " duplicate group(s)"@
}

/// A group in which every file is kept frees nothing.
proof fn lemma_nothing_marked_saves_nothing(group: DuplicateGroup, n: int)
    requires
        forall|i: int| 0 <= i < group.selected@.len() ==> #[trigger] group.selected@[i],
    ensures
        group.savings_upto(n) == 0,
    decreases n,
{
    if n > 0 {
        lemma_nothing_marked_saves_nothing(group, n - 1);
    }
}

/// A deletion that failed: the path of the file and the reason.
#[derive(Debug, PartialEq, Eq)]
pub struct DeletionFailure {
    pub path: String,
    pub reason: String,
}

/// What became of a batch of deletions.
#[derive(Debug, PartialEq, Eq)]
pub struct DeletionReport {
    /// Whether the deletions were only counted, not made.
    pub preview: bool,
    /// The number of files deleted, or that would be deleted.
    pub deleted: usize,
    /// The number of groups in which a file was deleted, or would be.
    pub groups_affected: usize,
    /// The paths of the marked files that are sensitive.
    pub critical: Vec<String>,
    /// The deletions that failed.
    pub failures: Vec<DeletionFailure>,
}

impl DeletionFailure {
    /// The failure as a text: the path of the file, then the reason.
    pub open spec fn text(self) -> Seq<char> {
        "Failed to delete "@ + self.path@ + ": "@ + self.reason@
    }

    /// The failure as a text, for a message to the user.
    pub fn describe(&self) -> (text: String)
        ensures
            text@ == self.text(),
    {
        let mut text = String::from_str("Failed to delete ");
        text.append(self.path.as_str());
        text.append(": ");
        text.append(self.reason.as_str());
        text
    }
}

/// The texts of a list of failures, in order.
pub open spec fn failure_texts(failures: Seq<DeletionFailure>) -> Seq<Seq<char>> {
    Seq::new(failures.len(), |i: int| failures[i].text())
}

/// The texts of the first `limit` failures, with `"; "` between each two.
fn describe_failures(failures: &Vec<DeletionFailure>, limit: usize) -> (text: String)
    ensures
        text@ == joined(failure_texts(first(failures@, limit as int)), "; "@),
{
    let count: usize = if limit < failures.len() {
        limit
    } else {
        failures.len()
    };
    let mut described: Vec<String> = Vec::new();
    let mut i: usize = 0;
    while i < count
        invariant
            i <= count,
            count <= failures.len(),
            described.len() == i,
            forall|k: int| 0 <= k < i ==> (#[trigger] described[k])@ == failures[k].text(),
        decreases count - i,
    {
        described.push(failures[i].describe());
        i = i + 1;
    }
    assert(texts(described@) =~= failure_texts(first(failures@, limit as int)));
    join(&described, "; ")
}

impl DeletionReport {
    /// The warning that sensitive files are among the marked files, with
    /// their number.
    pub open spec fn critical_warning(self) -> Seq<char> {
        " \u{26a0}\u{fe0f} "@ + decimal(self.critical@.len()) + " CRITICAL file(s) detected!"@
    }

    /// The status message after the deletions of one group, the group at
    /// position `number` counted from one.
    ///
    /// Where a deletion failed, the message lists every failure. Otherwise
    /// it counts the files deleted, or in a preview the files that would
    /// be; where sensitive files are among them it warns of them, and in a
    /// preview it names them.
    pub open spec fn group_message(self, number: int) -> Seq<char> {
        if self.failures@.len() > 0 {
            "\u{26a0} Errors: "@ + joined(failure_texts(self.failures@), "; "@)
        } else {
            let action = if self.preview {
                "Would delete"@
            } else {
                "Deleted"@
            };
            let counted = "\u{2713} "@ + action + " "@ + decimal(self.deleted as nat)
                + " file(s) from group "@ + decimal(number as nat);
            if self.critical@.len() == 0 {
                counted
            } else if self.preview {
                counted + self.critical_warning() + " Files: "@ + joined(
                    texts(self.critical@),
                    ", "@,
                )
            } else {
                counted + self.critical_warning()
            }
        }
    }

    /// The status message after the deletions of all groups.
    ///
    /// Where a deletion failed, the message counts the failures and lists
    /// the first three. Otherwise it counts the files deleted and the
    /// groups they were in, or in a preview those that would be; where
    /// sensitive files are among them it warns of them, and in a preview
    /// it names up to five of them.
    pub open spec fn bulk_message(self) -> Seq<char> {
        if self.failures@.len() > 0 {
            "\u{26a0} Bulk delete finished with "@ + decimal(self.failures@.len()) + " errors: "@
                + joined(failure_texts(first(self.failures@, 3)), "; "@)
        } else {
            let action = if self.preview {
                "Would bulk delete"@
            } else {
                "Bulk deleted"@
            };
            let counted = "\u{2713} "@ + action + " "@ + decimal(self.deleted as nat)
                + " file(s) across "@ + decimal(self.groups_affected as nat) + " group(s)."@;
            if self.critical@.len() == 0 {
                counted
            } else if self.preview && self.critical@.len() <= 5 {
                counted + self.critical_warning() + " Files: "@ + joined(
                    texts(self.critical@),
                    ", "@,
                )
            } else if self.preview {
                counted + self.critical_warning() + " First 5: "@ + joined(
                    texts(first(self.critical@, 5)),
                    ", "@,
                )
            } else {
                counted + self.critical_warning()
            }
        }
    }

    /// Adds to `message` the warning of sensitive files among the marked
    /// files.
    fn warn_of_critical(&self, message: &mut String)
        ensures
            final(message)@ == old(message)@ + self.critical_warning(),
    {
        let mut warning = String::from_str(" \u{26a0}\u{fe0f} ");
        warning.append(count_text(self.critical.len()).as_str());
        warning.append(" CRITICAL file(s) detected!");
        message.append(warning.as_str());
    }

    /// The status message after the deletions of one group; see
    /// [`DeletionReport::group_message`].
    pub fn describe_group(&self, number: usize) -> (message: String)
        ensures
            message@ == self.group_message(number as int),
    {
        if self.failures.len() > 0 {
            let mut message = String::from_str("\u{26a0} Errors: ");
            message.append(describe_failures(&self.failures, self.failures.len()).as_str());
            return message;
        }
        let mut message = String::from_str("\u{2713} ");
        message.append(if self.preview { "Would delete" } else { "Deleted" });
        message.append(" ");
        message.append(count_text(self.deleted).as_str());
        message.append(" file(s) from group ");
        message.append(count_text(number).as_str());
        if self.critical.len() > 0 {
            self.warn_of_critical(&mut message);
            if self.preview {
                message.append(" Files: ");
                message.append(join(&self.critical, ", ").as_str());
            }
        }
        message
    }

    /// The status message after the deletions of all groups; see
    /// [`DeletionReport::bulk_message`].
    pub fn describe_bulk(&self) -> (message: String)
        ensures
            message@ == self.bulk_message(),
    {
        if self.failures.len() > 0 {
            let mut message = String::from_str("\u{26a0} Bulk delete finished with ");
            message.append(count_text(self.failures.len()).as_str());
            message.append(" errors: ");
            message.append(describe_failures(&self.failures, 3).as_str());
            return message;
        }
        let mut message = String::from_str("\u{2713} ");
        message.append(if self.preview { "Would bulk delete" } else { "Bulk deleted" });
        message.append(" ");
        message.append(count_text(self.deleted).as_str());
        message.append(" file(s) across ");
        message.append(count_text(self.groups_affected).as_str());
        message.append(" group(s).");
        if self.critical.len() > 0 {
            self.warn_of_critical(&mut message);
            if self.preview {
                if self.critical.len() <= 5 {
                    message.append(" Files: ");
                } else {
                    message.append(" First 5: ");
                }
                message.append(join_first(&self.critical, 5, ", ").as_str());
            }
        }
        message
    }
}

/// A count as a `usize`: the count itself, or `usize::MAX` where it is
/// larger.
pub open spec fn saturated_count(count: int) -> usize {
    if count > usize::MAX {
        usize::MAX
    } else {
        count as usize
    }
}

/// The number of deletions that succeeded among the first `k` outcomes. An
/// outcome is `None` where the file was deleted, else the reason why not.
pub open spec fn deleted_upto(outcomes: Seq<Option<String>>, k: int) -> int
    decreases k,
{
    if k <= 0 {
        0
    } else if outcomes[k - 1] is None {
        deleted_upto(outcomes, k - 1) + 1
    } else {
        deleted_upto(outcomes, k - 1)
    }
}

impl DuplicateGroup {
    /// The positions marked for deletion among the first `n`, ascending.
    pub open spec fn targets_upto(self, n: int) -> Seq<usize>
        decreases n,
    {
        if n <= 0 {
            Seq::empty()
        } else if self.marked(n - 1) {
            self.targets_upto(n - 1).push((n - 1) as usize)
        } else {
            self.targets_upto(n - 1)
        }
    }

    /// The positions of the files marked for deletion, ascending.
    pub open spec fn targets(self) -> Seq<usize> {
        self.targets_upto(self.pairs())
    }

    /// The paths of the sensitive files among the marked files of the first
    /// `n` positions.
    pub open spec fn critical_upto(self, n: int) -> Seq<String>
        decreases n,
    {
        if n <= 0 {
            Seq::empty()
        } else if self.marked(n - 1) && self.files@[n - 1].is_critical {
            self.critical_upto(n - 1).push(self.files@[n - 1].path)
        } else {
            self.critical_upto(n - 1)
        }
    }

    /// The paths of the sensitive files among the marked files.
    pub open spec fn critical_targets(self) -> Seq<String> {
        self.critical_upto(self.pairs())
    }

    /// The failures among the first `k` outcomes, one outcome per marked
    /// file, each with the path of its file.
    pub open spec fn failures_upto(self, outcomes: Seq<Option<String>>, k: int) -> Seq<
        DeletionFailure,
    >
        decreases k,
    {
        if k <= 0 {
            Seq::empty()
        } else {
            match outcomes[k - 1] {
                Some(reason) => self.failures_upto(outcomes, k - 1).push(
                    DeletionFailure {
                        path: self.files@[self.targets()[k - 1] as int].path,
                        reason,
                    },
                ),
                None => self.failures_upto(outcomes, k - 1),
            }
        }
    }

    /// The number of files deleted: in preview mode every marked file
    /// counts, else the marked files whose deletion succeeded.
    pub open spec fn deleted(self, preview: bool, outcomes: Seq<Option<String>>) -> int {
        if preview {
            self.targets().len() as int
        } else {
            deleted_upto(outcomes, outcomes.len() as int)
        }
    }

    /// The failures of the deletions: none in preview mode.
    pub open spec fn failures(self, preview: bool, outcomes: Seq<Option<String>>) -> Seq<
        DeletionFailure,
    > {
        if preview {
            Seq::empty()
        } else {
            self.failures_upto(outcomes, outcomes.len() as int)
        }
    }

    /// Whether the outcomes are of the deletions of this group: one per
    /// marked file. In preview mode no outcome is looked at.
    pub open spec fn reports(self, preview: bool, outcomes: Seq<Option<String>>) -> bool {
        preview || outcomes.len() == self.targets().len()
    }

    /// The positions of the files marked for deletion, ascending: the files
    /// a deletion is to be attempted for, in this order.
    pub fn deletion_targets(&self) -> (targets: Vec<usize>)
        ensures
            targets@ == self.targets(),
            forall|k: int| 0 <= k < targets.len() ==> self.marked(#[trigger] targets[k] as int),
    {
        let count = if self.files.len() <= self.selected.len() {
            self.files.len()
        } else {
            self.selected.len()
        };
        let mut targets: Vec<usize> = Vec::new();
        let mut i: usize = 0;
        while i < count
            invariant
                i <= count,
                count == self.pairs(),
                targets@ == self.targets_upto(i as int),
                forall|k: int| 0 <= k < targets.len() ==> self.marked(#[trigger] targets[k] as int),
            decreases count - i,
        {
            if !self.selected[i] {
                targets.push(i);
            }
            i = i + 1;
        }
        targets
    }

    /// The paths of the sensitive files among the marked files.
    pub fn critical_paths(&self) -> (paths: Vec<String>)
        ensures
            paths@ == self.critical_targets(),
    {
        let count = if self.files.len() <= self.selected.len() {
            self.files.len()
        } else {
            self.selected.len()
        };
        let mut paths: Vec<String> = Vec::new();
        let mut i: usize = 0;
        while i < count
            invariant
                i <= count,
                count == self.pairs(),
                paths@ == self.critical_upto(i as int),
            decreases count - i,
        {
            if !self.selected[i] && self.files[i].is_critical {
                paths.push(self.files[i].path.clone());
            }
            i = i + 1;
        }
        paths
    }

    /// Counts the deletions of this group and collects those that failed.
    /// There is one outcome per marked file, in the order of
    /// [`DuplicateGroup::deletion_targets`].
    pub fn deletion_outcome(&self, preview: bool, outcomes: &Vec<Option<String>>) -> (outcome: (
        usize,
        Vec<DeletionFailure>,
    ))
        requires
            self.reports(preview, outcomes@),
        ensures
            outcome.0 == self.deleted(preview, outcomes@),
            outcome.1@ == self.failures(preview, outcomes@),
    {
        let targets = self.deletion_targets();
        let mut failures: Vec<DeletionFailure> = Vec::new();
        if preview {
            return (targets.len(), failures);
        }
        let mut deleted: usize = 0;
        let mut k: usize = 0;
        while k < outcomes.len()
            invariant
                k <= outcomes.len(),
                outcomes.len() == targets.len(),
                targets@ == self.targets(),
                forall|j: int| 0 <= j < targets.len() ==> self.marked(#[trigger] targets[j] as int),
                deleted == deleted_upto(outcomes@, k as int),
                deleted <= k,
                failures@ == self.failures_upto(outcomes@, k as int),
            decreases outcomes.len() - k,
        {
            match &outcomes[k] {
                Some(reason) => {
                    assert(self.marked(targets[k as int] as int));
                    let path = self.files[targets[k]].path.clone();
                    failures.push(DeletionFailure { path, reason: reason.clone() });
                },
                None => {
                    deleted = deleted + 1;
                },
            }
            k = k + 1;
        }
        (deleted, failures)
    }
}

/// The number of files deleted in the first `n` groups.
pub open spec fn bulk_deleted(
    groups: Seq<DuplicateGroup>,
    preview: bool,
    outcomes: Seq<Vec<Option<String>>>,
    n: int,
) -> int
    decreases n,
{
    if n <= 0 {
        0
    } else {
        bulk_deleted(groups, preview, outcomes, n - 1) + groups[n - 1].deleted(
            preview,
            outcomes[n - 1]@,
        )
    }
}

/// The number of groups among the first `n` in which a file was deleted.
pub open spec fn bulk_affected(
    groups: Seq<DuplicateGroup>,
    preview: bool,
    outcomes: Seq<Vec<Option<String>>>,
    n: int,
) -> int
    decreases n,
{
    if n <= 0 {
        0
    } else if groups[n - 1].deleted(preview, outcomes[n - 1]@) > 0 {
        bulk_affected(groups, preview, outcomes, n - 1) + 1
    } else {
        bulk_affected(groups, preview, outcomes, n - 1)
    }
}

/// The paths of the sensitive files among the marked files of the first
/// `n` groups.
pub open spec fn bulk_critical(groups: Seq<DuplicateGroup>, n: int) -> Seq<String>
    decreases n,
{
    if n <= 0 {
        Seq::empty()
    } else {
        bulk_critical(groups, n - 1) + groups[n - 1].critical_targets()
    }
}

/// The deletions that failed in the first `n` groups.
pub open spec fn bulk_failures(
    groups: Seq<DuplicateGroup>,
    preview: bool,
    outcomes: Seq<Vec<Option<String>>>,
    n: int,
) -> Seq<DeletionFailure>
    decreases n,
{
    if n <= 0 {
        Seq::empty()
    } else {
        bulk_failures(groups, preview, outcomes, n - 1) + groups[n - 1].failures(
            preview,
            outcomes[n - 1]@,
        )
    }
}

/// The groups among the first `n` in which no file was deleted, in order.
pub open spec fn bulk_remaining(
    groups: Seq<DuplicateGroup>,
    preview: bool,
    outcomes: Seq<Vec<Option<String>>>,
    n: int,
) -> Seq<DuplicateGroup>
    decreases n,
{
    if n <= 0 {
        Seq::empty()
    } else if groups[n - 1].deleted(preview, outcomes[n - 1]@) > 0 {
        bulk_remaining(groups, preview, outcomes, n - 1)
    } else {
        bulk_remaining(groups, preview, outcomes, n - 1).push(groups[n - 1])
    }
}

/// Whether the outcomes are of the deletions of these groups: one list per
/// group, one outcome per marked file. In preview mode no outcome is looked
/// at.
pub open spec fn bulk_reports(
    groups: Seq<DuplicateGroup>,
    preview: bool,
    outcomes: Seq<Vec<Option<String>>>,
) -> bool {
    preview || (outcomes.len() == groups.len() && forall|g: int|
        0 <= g < groups.len() ==> (#[trigger] groups[g]).reports(preview, outcomes[g]@))
}

impl AppState {
    /// Takes the outcomes of deleting the marked files of one group, one
    /// outcome per marked file in the order of the group's deletion
    /// targets: `None` where the file was deleted, else the reason why not.
    /// In preview mode nothing was deleted and the outcomes are not looked
    /// at.
    ///
    /// The report says how many files were deleted, which deletions failed
    /// and which marked files are sensitive, and the status message says
    /// the same in words. Where every deletion succeeded and this is no
    /// preview, the group leaves the list and the savings are calculated
    /// anew. A position beyond the last group gives no report and changes
    /// nothing.
    pub fn delete_unchecked(&mut self, group_idx: usize, outcomes: &Vec<Option<String>>) -> (report:
        Option<DeletionReport>)
        requires
            group_idx < old(self).duplicate_groups@.len() ==> old(self).duplicate_groups@[
                group_idx as int
            ].reports(old(self).preview_mode, outcomes@),
        ensures
            final(self).same_options(*old(self)),
            report is Some <==> group_idx < old(self).duplicate_groups@.len(),
            report is None ==> *final(self) == *old(self),
            report matches Some(r) ==> {
                let group = old(self).duplicate_groups@[group_idx as int];
                let preview = old(self).preview_mode;
                &&& final(self).status_message@ == r.group_message(group_idx + 1)
                &&& r.preview == preview
                &&& r.deleted == group.deleted(preview, outcomes@)
                &&& r.groups_affected == (if r.deleted > 0 {
                    1usize
                } else {
                    0usize
                })
                &&& r.critical@ == group.critical_targets()
                &&& r.failures@ == group.failures(preview, outcomes@)
                &&& if !preview && r.failures@.len() == 0 {
                    &&& final(self).duplicate_groups@ == old(self).duplicate_groups@.remove(
                        group_idx as int,
                    )
                    &&& final(self).total_size_savings == saturated(
                        total_savings(final(self).duplicate_groups@),
                    )
                } else {
                    &&& final(self).duplicate_groups == old(self).duplicate_groups
                    &&& final(self).total_size_savings == old(self).total_size_savings
                }
            },
    {
        if group_idx >= self.duplicate_groups.len() {
            return None;
        }
        let preview = self.preview_mode;
        let group = &self.duplicate_groups[group_idx];
        let (deleted, failures) = group.deletion_outcome(preview, outcomes);
        let critical = group.critical_paths();
        let groups_affected: usize = if deleted > 0 {
            1
        } else {
            0
        };
        if !preview && failures.len() == 0 {
            let _ = self.duplicate_groups.remove(group_idx);
            self.total_size_savings = potential_savings(&self.duplicate_groups);
        }
        let report = DeletionReport { preview, deleted, groups_affected, critical, failures };
        self.status_message = report.describe_group(group_idx + 1);
        Some(report)
    }

    /// Takes the outcomes of deleting the marked files of every group: one
    /// list per group, one outcome per marked file in the order of the
    /// group's deletion targets. In preview mode nothing was deleted and
    /// the outcomes are not looked at.
    ///
    /// The report counts the files deleted over all groups and the groups
    /// in which a file was deleted, and lists the deletions that failed and
    /// the marked files that are sensitive; the status message says the
    /// same in words. Unless this is a preview, every group in which a file
    /// was deleted leaves the list, whether or not another deletion in it
    /// failed, and the savings are calculated anew.
    pub fn bulk_delete_unchecked(&mut self, outcomes: &Vec<Vec<Option<String>>>) -> (report:
        DeletionReport)
        requires
            bulk_reports(old(self).duplicate_groups@, old(self).preview_mode, outcomes@),
        ensures
            final(self).same_options(*old(self)),
            final(self).status_message@ == report.bulk_message(),
            report.preview == old(self).preview_mode,
            report.deleted == saturated_count(
                bulk_deleted(
                    old(self).duplicate_groups@,
                    old(self).preview_mode,
                    outcomes@,
                    old(self).duplicate_groups@.len() as int,
                ),
            ),
            report.groups_affected == bulk_affected(
                old(self).duplicate_groups@,
                old(self).preview_mode,
                outcomes@,
                old(self).duplicate_groups@.len() as int,
            ),
            report.critical@ == bulk_critical(
                old(self).duplicate_groups@,
                old(self).duplicate_groups@.len() as int,
            ),
            report.failures@ == bulk_failures(
                old(self).duplicate_groups@,
                old(self).preview_mode,
                outcomes@,
                old(self).duplicate_groups@.len() as int,
            ),
            if old(self).preview_mode {
                &&& final(self).duplicate_groups == old(self).duplicate_groups
                &&& final(self).total_size_savings == old(self).total_size_savings
            } else {
                &&& final(self).duplicate_groups@ == bulk_remaining(
                    old(self).duplicate_groups@,
                    false,
                    outcomes@,
                    old(self).duplicate_groups@.len() as int,
                )
                &&& final(self).total_size_savings == saturated(
                    total_savings(final(self).duplicate_groups@),
                )
            },
    {
        let preview = self.preview_mode;
        let ghost groups = self.duplicate_groups@;
        let none: Vec<Option<String>> = Vec::new();
        let mut deleted: usize = 0;
        let mut groups_affected: usize = 0;
        let mut critical: Vec<String> = Vec::new();
        let mut failures: Vec<DeletionFailure> = Vec::new();
        let mut stays: Vec<bool> = Vec::new();
        let mut g: usize = 0;
        while g < self.duplicate_groups.len()
            invariant
                g <= self.duplicate_groups.len(),
                *self == *old(self),
                groups == self.duplicate_groups@,
                preview == self.preview_mode,
                none@.len() == 0,
                bulk_reports(groups, preview, outcomes@),
                bulk_deleted(groups, preview, outcomes@, g as int) >= 0,
                deleted == saturated_count(bulk_deleted(groups, preview, outcomes@, g as int)),
                groups_affected == bulk_affected(groups, preview, outcomes@, g as int),
                groups_affected <= g,
                critical@ == bulk_critical(groups, g as int),
                failures@ == bulk_failures(groups, preview, outcomes@, g as int),
                stays.len() == g,
                forall|h: int|
                    0 <= h < g ==> #[trigger] stays[h] == (groups[h].deleted(preview, outcomes@[h]@)
                        <= 0),
            decreases self.duplicate_groups.len() - g,
        {
            let group = &self.duplicate_groups[g];
            assert(groups[g as int].reports(preview, outcomes@[g as int]@));
            let (count, mut failed) = if preview {
                group.deletion_outcome(true, &none)
            } else {
                group.deletion_outcome(false, &outcomes[g])
            };
            let mut paths = group.critical_paths();
            deleted = deleted.saturating_add(count);
            if count > 0 {
                groups_affected = groups_affected + 1;
            }
            critical.append(&mut paths);
            failures.append(&mut failed);
            stays.push(count == 0);
            g = g + 1;
        }
        if !preview {
            let mut earlier: Vec<DuplicateGroup> = Vec::new();
            std::mem::swap(&mut earlier, &mut self.duplicate_groups);
            let mut h: usize = 0;
            for group in it: earlier
                invariant
                    it.seq() == groups,
                    h == it.index(),
                    stays.len() == groups.len(),
                    self.same_settings(*old(self)),
                    forall|k: int|
                        0 <= k < groups.len() ==> #[trigger] stays[k] == (groups[k].deleted(
                            false,
                            outcomes@[k]@,
                        ) <= 0),
                    self.duplicate_groups@ == bulk_remaining(groups, false, outcomes@, h as int),
            {
                if stays[h] {
                    self.duplicate_groups.push(group);
                }
                h = h + 1;
            }
            self.total_size_savings = potential_savings(&self.duplicate_groups);
        }
        let report = DeletionReport { preview, deleted, groups_affected, critical, failures };
        self.status_message = report.describe_bulk();
        report
    }
}

} // verus!
