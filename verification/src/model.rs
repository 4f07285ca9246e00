//! The records a scan works on.
use vstd::prelude::*;
use vstd::string::StringExecFns;

verus! {

/// A point in time: whole seconds since the Unix epoch (negative before it)
/// and the nanoseconds after that second.
#[derive(Clone, Copy, Debug, PartialEq, Eq, Structural)]
pub struct Timestamp {
    pub secs: i64,
    pub nanos: u32,
}

impl Timestamp {
    /// Whether `self` is strictly earlier than `other`.
    pub open spec fn before(self, other: Timestamp) -> bool {
        self.secs < other.secs || (self.secs == other.secs && self.nanos < other.nanos)
    }

    /// Whether `self` is strictly earlier than `other`.
    pub fn is_before(&self, other: &Timestamp) -> (earlier: bool)
        ensures
            earlier == self.before(*other),
    {
        self.secs < other.secs || (self.secs == other.secs && self.nanos < other.nanos)
    }

    /// Whether the nanoseconds are less than one second.
    pub open spec fn normal(self) -> bool {
        self.nanos < NANOS_PER_SEC
    }

    /// The nanoseconds from the epoch to this time; negative before it.
    pub open spec fn since_epoch(self) -> int {
        self.secs * (NANOS_PER_SEC as int) + self.nanos
    }

    /// The time that lies `secs` seconds and `nanos` nanoseconds after the
    /// epoch, or `None` where the seconds do not fit.
    pub fn after_epoch(secs: u64, nanos: u32) -> (time: Option<Timestamp>)
        requires
            nanos < NANOS_PER_SEC,
        ensures
            time is Some <==> secs <= i64::MAX,
            time matches Some(t) ==> t.normal() && t.since_epoch() == secs * (NANOS_PER_SEC as int)
                + nanos,
    {
        if secs > i64::MAX as u64 {
            return None;
        }
        Some(Timestamp { secs: secs as i64, nanos })
    }

    /// The time that lies `secs` seconds and `nanos` nanoseconds before the
    /// epoch, or `None` where the seconds do not fit.
    pub fn before_epoch(secs: u64, nanos: u32) -> (time: Option<Timestamp>)
        requires
            nanos < NANOS_PER_SEC,
        ensures
            time is Some <==> secs < i64::MAX,
            time matches Some(t) ==> t.normal() && t.since_epoch() == -(secs * (
            NANOS_PER_SEC as int) + nanos),
    {
        if secs >= i64::MAX as u64 {
            return None;
        }
        let whole: i64 = -(secs as i64);
        if nanos == 0 {
            Some(Timestamp { secs: whole, nanos: 0 })
        } else {
            Some(Timestamp { secs: whole - 1, nanos: NANOS_PER_SEC - nanos })
        }
    }
}

/// The nanoseconds in one second.
pub const NANOS_PER_SEC: u32 = 1_000_000_000;

/// Between times whose nanoseconds are less than one second, the earlier
/// time is the one fewer nanoseconds from the epoch.
pub proof fn law_timestamps_order_by_instant(a: Timestamp, b: Timestamp)
    requires
        a.normal(),
        b.normal(),
    ensures
        a.before(b) <==> a.since_epoch() < b.since_epoch(),
{
    assert(a.secs < b.secs ==> a.secs * (NANOS_PER_SEC as int) + (NANOS_PER_SEC as int) <= b.secs
        * (NANOS_PER_SEC as int)) by (nonlinear_arith);
    assert(b.secs < a.secs ==> b.secs * (NANOS_PER_SEC as int) + (NANOS_PER_SEC as int) <= a.secs
        * (NANOS_PER_SEC as int)) by (nonlinear_arith);
}

/// One regular file found by a scan. A record is made during discovery and
/// never changed afterwards.
#[derive(Debug, PartialEq, Eq)]
pub struct FileInfo {
    pub path: String,
    /// Size in bytes, as observed at discovery.
    pub size: u64,
    /// Last modification, where the file system reports one.
    pub modified_time: Option<Timestamp>,
    /// Whether the path matches the list of sensitive names. Advisory only.
    pub is_critical: bool,
}

impl Clone for FileInfo {
    fn clone(&self) -> (copy: Self)
        ensures
            copy == *self,
    {
        FileInfo {
            path: self.path.clone(),
            size: self.size,
            modified_time: self.modified_time,
            is_critical: self.is_critical,
        }
    }
}

/// The two phases of a scan that report progress.
#[derive(Clone, Copy, Debug, PartialEq, Eq, Structural)]
pub enum ScanPhase {
    Discovery,
    Hashing,
}

/// One progress event.
#[derive(Debug, PartialEq, Eq)]
pub struct ScanProgress {
    pub current: usize,
    pub total: usize,
    /// A label for the file just processed.
    pub current_file: String,
    pub phase: ScanPhase,
}

impl Clone for ScanProgress {
    fn clone(&self) -> (copy: Self)
        ensures
            copy == *self,
    {
        ScanProgress {
            current: self.current,
            total: self.total,
            current_file: self.current_file.clone(),
            phase: self.phase,
        }
    }
}

/// The options of a scan. They do not change while it runs.
#[derive(Clone, Copy, Debug, PartialEq, Eq)]
pub struct ScanConfig {
    /// Bytes per read when hashing. Positive.
    pub buffer_size: usize,
    /// Whether names that begin with a dot are visited.
    pub include_hidden: bool,
    /// Files strictly smaller than this are never indexed.
    pub min_file_size: u64,
    /// An optional cap on the number of hashing workers. Positive where set.
    pub max_threads: Option<usize>,
}

impl ScanConfig {
    /// Whether the options are ones a scan can run with.
    pub open spec fn valid(self) -> bool {
        &&& self.buffer_size > 0
        &&& self.max_threads matches Some(n) ==> n > 0
    }

    /// Whether the options are ones a scan can run with.
    pub fn is_valid(&self) -> (ok: bool)
        ensures
            ok == self.valid(),
    {
        self.buffer_size > 0 && match self.max_threads {
            Some(n) => n > 0,
            None => true,
        }
    }

    /// Whether a file of this size enters the size index.
    pub open spec fn admits_size(self, size: u64) -> bool {
        size >= self.min_file_size
    }

    /// The number of hashing workers: the cap where one is set, else the
    /// degree of parallelism the system offers by default.
    pub fn parallelism(&self, system_default: usize) -> (workers: usize)
        ensures
            workers == match self.max_threads {
                Some(n) => n,
                None => system_default,
            },
    {
        match self.max_threads {
            Some(n) => n,
            None => system_default,
        }
    }
}

impl Default for ScanConfig {
    fn default() -> (config: Self)
        ensures
            config.buffer_size == 65536,
            !config.include_hidden,
            config.min_file_size == 1,
            config.max_threads is None,
            config.valid(),
    {
        ScanConfig {
            buffer_size: 65536,
            include_hidden: false,
            min_file_size: 1,
            max_threads: None,
        }
    }
}

/// Why a scan, or the hashing of one file, failed.
#[derive(Debug, PartialEq, Eq)]
pub enum ScanError {
    /// A file-system failure that aborts the scan.
    IoError(String),
    /// The directory walk failed at its root.
    TraversalError(String),
    /// One file could not be hashed: its path and the reason. The scan
    /// goes on without that file.
    HashError(String, String),
}

impl ScanError {
    /// The error as a text: the kind of the error and, in brackets and
    /// quotation marks, what is known of it.
    pub open spec fn text(self) -> Seq<char> {
        match self {
            ScanError::IoError(reason) => "IoError(\""@ + reason@ + "\")"@,
            ScanError::TraversalError(reason) => "TraversalError(\""@ + reason@ + "\")"@,
            ScanError::HashError(path, reason) => "HashError(\""@ + path@ + "\", \""@ + reason@
                + "\")"@,
        }
    }

    /// The error as a text, for a message to the user.
    pub fn describe(&self) -> (text: String)
        ensures
            text@ == self.text(),
    {
        match self {
            ScanError::IoError(reason) => {
                let mut text = String::from_str("IoError(\"");
                text.append(reason.as_str());
                text.append("\")");
                text
            },
            ScanError::TraversalError(reason) => {
                let mut text = String::from_str("TraversalError(\"");
                text.append(reason.as_str());
                text.append("\")");
                text
            },
            ScanError::HashError(path, reason) => {
                let mut text = String::from_str("HashError(\"");
                text.append(path.as_str());
                text.append("\", \"");
                text.append(reason.as_str());
                text.append("\")");
                text
            },
        }
    }
}

impl Clone for ScanError {
    fn clone(&self) -> (copy: Self)
        ensures
            copy == *self,
    {
        match self {
            ScanError::IoError(reason) => ScanError::IoError(reason.clone()),
            ScanError::TraversalError(reason) => ScanError::TraversalError(reason.clone()),
            ScanError::HashError(path, reason) => {
                ScanError::HashError(path.clone(), reason.clone())
            },
        }
    }
}

} // verus!
