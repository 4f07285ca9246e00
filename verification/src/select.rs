//! Selection strategies: which copies of a duplicate group to keep.
//!
//! A strategy is a pure function of the group. It answers with one flag per
//! file, in the order of the files: `true` keeps the file, `false` marks it
//! for deletion.
use vstd::prelude::*;

use crate::model::{FileInfo, Timestamp};

verus! {

/// Whether modification time `a` is strictly earlier than `b`. A missing
/// time is earlier than any present one.
pub open spec fn earlier(a: Option<Timestamp>, b: Option<Timestamp>) -> bool {
    match (a, b) {
        (None, None) => false,
        (None, Some(_)) => true,
        (Some(_), None) => false,
        (Some(x), Some(y)) => x.before(y),
    }
}

/// Whether modification time `a` is strictly earlier than `b`.
pub fn is_earlier(a: &Option<Timestamp>, b: &Option<Timestamp>) -> (result: bool)
    ensures
        result == earlier(*a, *b),
{
    match (a, b) {
        (None, None) => false,
        (None, Some(_)) => true,
        (Some(_), None) => false,
        (Some(x), Some(y)) => x.is_before(y),
    }
}

/// The position of the newest file: the first among the files with the
/// latest modification time. Zero for an empty group.
pub open spec fn newest(files: Seq<FileInfo>) -> int
    decreases files.len(),
{
    if files.len() <= 1 {
        0
    } else {
        let best = newest(files.drop_last());
        if earlier(files[best].modified_time, files.last().modified_time) {
            files.len() - 1
        } else {
            best
        }
    }
}

/// The position of the oldest file: the first among the files with the
/// earliest modification time. Zero for an empty group.
pub open spec fn oldest(files: Seq<FileInfo>) -> int
    decreases files.len(),
{
    if files.len() <= 1 {
        0
    } else {
        let best = oldest(files.drop_last());
        if earlier(files.last().modified_time, files[best].modified_time) {
            files.len() - 1
        } else {
            best
        }
    }
}

/// The selection that keeps the file at position `kept` and no other.
pub open spec fn only(count: nat, kept: int) -> Seq<bool> {
    Seq::new(count, |i: int| i == kept)
}

/// The selection that gives every file the same flag.
pub open spec fn every(count: nat, flag: bool) -> Seq<bool> {
    Seq::new(count, |i: int| flag)
}

/// The closed set of strategies.
#[derive(Clone, Copy, Debug, PartialEq, Eq, Structural)]
pub enum Strategy {
    Newest,
    Oldest,
    KeepAll,
    KeepNone,
}

impl Strategy {
    /// The selection the strategy makes on a group.
    pub open spec fn selection(self, files: Seq<FileInfo>) -> Seq<bool> {
        match self {
            Strategy::Newest => only(files.len(), newest(files)),
            Strategy::Oldest => only(files.len(), oldest(files)),
            Strategy::KeepAll => every(files.len(), true),
            Strategy::KeepNone => every(files.len(), false),
        }
    }

    /// Applies the strategy to a group.
    pub fn select(self, files: &[FileInfo]) -> (selected: Vec<bool>)
        ensures
            selected@ == self.selection(files@),
    {
        match self {
            Strategy::Newest => KeepNewestStrategy.select(files),
            Strategy::Oldest => KeepOldestStrategy.select(files),
            Strategy::KeepAll => KeepAllStrategy.select(files),
            Strategy::KeepNone => KeepNoneStrategy.select(files),
        }
    }
}

/// A strategy: one flag per file of the group, in the order of the files.
pub trait SelectionStrategy {
    /// The selection the strategy makes on a group.
    spec fn selection(&self, files: Seq<FileInfo>) -> Seq<bool>;

    /// Applies the strategy to a group.
    fn select(&self, files: &[FileInfo]) -> (selected: Vec<bool>)
        ensures
            selected.len() == files.len(),
            selected@ == self.selection(files@),
    ;
}

/// Keeps the file modified last, and only that one. Of several files with
/// the latest time the first is kept. A file without a modification time is
/// kept only when no file has one.
pub struct KeepNewestStrategy;

/// Keeps the file modified first, and only that one. Of several files with
/// the earliest time the first is kept. A file without a modification time
/// counts as older than any file that has one.
pub struct KeepOldestStrategy;

/// Keeps every file.
pub struct KeepAllStrategy;

/// Keeps no file.
pub struct KeepNoneStrategy;

/// As many flags as asked for, all of them `flag`.
fn filled(count: usize, flag: bool) -> (flags: Vec<bool>)
    ensures
        flags@ == every(count as nat, flag),
{
    let mut flags: Vec<bool> = Vec::new();
    let mut i: usize = 0;
    while i < count
        invariant
            i <= count,
            flags.len() == i,
            forall|k: int| 0 <= k < i ==> flags[k] == flag,
        decreases count - i,
    {
        flags.push(flag);
        i = i + 1;
    }
    assert(flags@ =~= every(count as nat, flag));
    flags
}

/// The flags that keep the file at `kept` and no other.
fn single(count: usize, kept: usize) -> (flags: Vec<bool>)
    ensures
        flags@ == only(count as nat, kept as int),
{
    let mut flags: Vec<bool> = Vec::new();
    let mut i: usize = 0;
    while i < count
        invariant
            i <= count,
            flags.len() == i,
            forall|k: int| 0 <= k < i ==> flags[k] == (k == kept),
        decreases count - i,
    {
        flags.push(i == kept);
        i = i + 1;
    }
    assert(flags@ =~= only(count as nat, kept as int));
    flags
}

impl SelectionStrategy for KeepNewestStrategy {
    open spec fn selection(&self, files: Seq<FileInfo>) -> Seq<bool> {
        only(files.len(), newest(files))
    }

    fn select(&self, files: &[FileInfo]) -> (selected: Vec<bool>) {
        let mut best: usize = 0;
        let mut i: usize = 1;
        if files.len() == 0 {
            assert(only(0, 0) =~= only(0, newest(files@)));
            return single(0, 0);
        }
        assert(files@.take(1).len() == 1);
        while i < files.len()
            invariant
                1 <= i <= files.len(),
                best < i,
                best == newest(files@.take(i as int)),
            decreases files.len() - i,
        {
            assert(files@.take(i + 1).drop_last() == files@.take(i as int));
            if is_earlier(&files[best].modified_time, &files[i].modified_time) {
                best = i;
            }
            i = i + 1;
        }
        assert(files@.take(i as int) == files@);
        single(files.len(), best)
    }
}

impl SelectionStrategy for KeepOldestStrategy {
    open spec fn selection(&self, files: Seq<FileInfo>) -> Seq<bool> {
        only(files.len(), oldest(files))
    }

    fn select(&self, files: &[FileInfo]) -> (selected: Vec<bool>) {
        let mut best: usize = 0;
        let mut i: usize = 1;
        if files.len() == 0 {
            assert(only(0, 0) =~= only(0, oldest(files@)));
            return single(0, 0);
        }
        assert(files@.take(1).len() == 1);
        while i < files.len()
            invariant
                1 <= i <= files.len(),
                best < i,
                best == oldest(files@.take(i as int)),
            decreases files.len() - i,
        {
            assert(files@.take(i + 1).drop_last() == files@.take(i as int));
            if is_earlier(&files[i].modified_time, &files[best].modified_time) {
                best = i;
            }
            i = i + 1;
        }
        assert(files@.take(i as int) == files@);
        single(files.len(), best)
    }
}

impl SelectionStrategy for KeepAllStrategy {
    open spec fn selection(&self, files: Seq<FileInfo>) -> Seq<bool> {
        every(files.len(), true)
    }

    fn select(&self, files: &[FileInfo]) -> (selected: Vec<bool>) {
        filled(files.len(), true)
    }
}

impl SelectionStrategy for KeepNoneStrategy {
    open spec fn selection(&self, files: Seq<FileInfo>) -> Seq<bool> {
        every(files.len(), false)
    }

    fn select(&self, files: &[FileInfo]) -> (selected: Vec<bool>) {
        filled(files.len(), false)
    }
}

/// Keeping the newest file of a group that is not empty keeps exactly one
/// file. No file of the group was modified later than it, and every file
/// before it was modified strictly earlier.
pub proof fn law_keep_newest_keeps_the_newest(files: Seq<FileInfo>)
    requires
        files.len() > 0,
    ensures
        0 <= newest(files) < files.len(),
        forall|j: int|
            0 <= j < files.len() ==> !earlier(
                files[newest(files)].modified_time,
                (#[trigger] files[j]).modified_time,
            ),
        forall|j: int|
            0 <= j < newest(files) ==> earlier(
                (#[trigger] files[j]).modified_time,
                files[newest(files)].modified_time,
            ),
        Strategy::Newest.selection(files).len() == files.len(),
        forall|i: int|
            0 <= i < files.len()
                ==> #[trigger] Strategy::Newest.selection(files)[i] == (i == newest(
                files,
            )),
    decreases files.len(),
{
    if files.len() > 1 {
        let front = files.drop_last();
        law_keep_newest_keeps_the_newest(front);
        let best = newest(front);
        assert forall|j: int| 0 <= j < files.len() implies !earlier(
            files[newest(files)].modified_time,
            (#[trigger] files[j]).modified_time,
        ) by {
            if j < front.len() {
                assert(!earlier(front[best].modified_time, front[j].modified_time));
            }
        }
        assert forall|j: int| 0 <= j < newest(files) implies earlier(
            (#[trigger] files[j]).modified_time,
            files[newest(files)].modified_time,
        ) by {
            assert(j < front.len());
            assert(!earlier(front[best].modified_time, front[j].modified_time));
            if j < best {
                assert(earlier(front[j].modified_time, front[best].modified_time));
            }
        }
    }
}

/// Keeping the oldest file of a group that is not empty keeps exactly one
/// file. No file of the group was modified earlier than it, and every file
/// before it was modified strictly later.
pub proof fn law_keep_oldest_keeps_the_oldest(files: Seq<FileInfo>)
    requires
        files.len() > 0,
    ensures
        0 <= oldest(files) < files.len(),
        forall|j: int|
            0 <= j < files.len() ==> !earlier(
                (#[trigger] files[j]).modified_time,
                files[oldest(files)].modified_time,
            ),
        forall|j: int|
            0 <= j < oldest(files) ==> earlier(
                files[oldest(files)].modified_time,
                (#[trigger] files[j]).modified_time,
            ),
        Strategy::Oldest.selection(files).len() == files.len(),
        forall|i: int|
            0 <= i < files.len()
                ==> #[trigger] Strategy::Oldest.selection(files)[i] == (i == oldest(
                files,
            )),
    decreases files.len(),
{
    if files.len() > 1 {
        let front = files.drop_last();
        law_keep_oldest_keeps_the_oldest(front);
        let best = oldest(front);
        assert forall|j: int| 0 <= j < files.len() implies !earlier(
            (#[trigger] files[j]).modified_time,
            files[oldest(files)].modified_time,
        ) by {
            if j < front.len() {
                assert(!earlier(front[j].modified_time, front[best].modified_time));
            }
        }
        assert forall|j: int| 0 <= j < oldest(files) implies earlier(
            files[oldest(files)].modified_time,
            (#[trigger] files[j]).modified_time,
        ) by {
            assert(j < front.len());
            assert(!earlier(front[j].modified_time, front[best].modified_time));
            if j < best {
                assert(earlier(front[best].modified_time, front[j].modified_time));
            }
        }
    }
}

} // verus!
