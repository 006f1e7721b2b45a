//! The bookkeeping of a folder scan: what each directory entry met on the
//! way adds to the counts, and how the counts of separately scanned
//! subtrees combine.

use vstd::prelude::*;

verus! {

/// One more than the largest `u64`: the counters wrap around at this value.
pub open spec fn counter_modulus() -> nat {
    0x1_0000_0000_0000_0000
}

/// A counter value after adding `n` to `c`, wrapping around.
pub open spec fn wrap_add(c: u64, n: nat) -> u64 {
    ((c as nat + n) % counter_modulus()) as u64
}

/// What a directory entry turned out to be, by its own metadata.
#[derive(Debug, Clone, Copy, PartialEq, Eq, Structural)]
pub enum EntryKind {
    /// A regular file, or anything else that is neither a link nor a directory.
    File,
    /// A directory, to be scanned in turn.
    Dir,
    /// A symbolic link or junction: counted with its own size, never followed.
    Symlink,
}

impl EntryKind {
    /// Classifies an entry by its own (not followed) file type: a link is a
    /// link even where it points to a directory.
    pub fn classify(is_symlink: bool, is_dir: bool) -> (kind: EntryKind)
        ensures
            kind == (if is_symlink {
                EntryKind::Symlink
            } else if is_dir {
                EntryKind::Dir
            } else {
                EntryKind::File
            }),
    {
        if is_symlink {
            EntryKind::Symlink
        } else if is_dir {
            EntryKind::Dir
        } else {
            EntryKind::File
        }
    }
}

/// What the scan met at one step.
#[derive(Debug, Clone, Copy, PartialEq, Eq, Structural)]
pub enum ScanEvent {
    /// A directory that could not be listed, a listing entry that could not
    /// be read, or an entry whose metadata could not be read.
    Unreadable,
    /// An entry with its kind and its own length in bytes.
    Found { kind: EntryKind, len: u64 },
}

/// The totals of a scan.
#[derive(Debug, Clone, PartialEq, Eq, Structural)]
pub struct ScanStats {
    /// Bytes in the files and links counted.
    pub total_bytes: u64,
    /// Files and links counted.
    pub file_count: u64,
    /// Directories met below the scanned folder.
    pub dir_count: u64,
    /// Directories and entries that could not be read.
    pub skipped_count: u64,
}

/// The exact (unbounded) totals of a sequence of events.
pub struct Tally {
    pub bytes: nat,
    pub files: nat,
    pub dirs: nat,
    pub skipped: nat,
}

/// The totals of no events.
pub open spec fn empty_tally() -> Tally {
    Tally { bytes: 0, files: 0, dirs: 0, skipped: 0 }
}

/// Field-wise sum of two tallies.
pub open spec fn tally_sum(a: Tally, b: Tally) -> Tally {
    Tally {
        bytes: a.bytes + b.bytes,
        files: a.files + b.files,
        dirs: a.dirs + b.dirs,
        skipped: a.skipped + b.skipped,
    }
}

/// What one event adds: a file or a link its length and one file, a
/// directory one directory, an unreadable item one skip.
pub open spec fn event_tally(e: ScanEvent) -> Tally {
    match e {
        ScanEvent::Unreadable => Tally { bytes: 0, files: 0, dirs: 0, skipped: 1 },
        ScanEvent::Found { kind, len } => match kind {
            EntryKind::Dir => Tally { bytes: 0, files: 0, dirs: 1, skipped: 0 },
            _ => Tally { bytes: len as nat, files: 1, dirs: 0, skipped: 0 },
        },
    }
}

/// The exact totals of a sequence of events.
pub open spec fn tally(events: Seq<ScanEvent>) -> Tally
    decreases events.len(),
{
    if events.len() == 0 {
        empty_tally()
    } else {
        tally_sum(tally(events.drop_last()), event_tally(events.last()))
    }
}

/// Counts `t` added to `s`, each counter wrapping around.
pub open spec fn add_tally(s: ScanStats, t: Tally) -> ScanStats {
    ScanStats {
        total_bytes: wrap_add(s.total_bytes, t.bytes),
        file_count: wrap_add(s.file_count, t.files),
        dir_count: wrap_add(s.dir_count, t.dirs),
        skipped_count: wrap_add(s.skipped_count, t.skipped),
    }
}

/// All counters zero.
pub open spec fn zero_stats() -> ScanStats {
    ScanStats { total_bytes: 0, file_count: 0, dir_count: 0, skipped_count: 0 }
}

/// The counts of `s` and `t` added, each counter wrapping around.
pub open spec fn merged(s: ScanStats, t: ScanStats) -> ScanStats {
    ScanStats {
        total_bytes: wrap_add(s.total_bytes, t.total_bytes as nat),
        file_count: wrap_add(s.file_count, t.file_count as nat),
        dir_count: wrap_add(s.dir_count, t.dir_count as nat),
        skipped_count: wrap_add(s.skipped_count, t.skipped_count as nat),
    }
}

/// Whether the scan goes on into an entry: only into directories.
pub open spec fn descends(e: ScanEvent) -> bool {
    e matches ScanEvent::Found { kind: EntryKind::Dir, .. }
}

/// The counts after recording `events` in order, starting from `s`.
pub open spec fn recorded(s: ScanStats, events: Seq<ScanEvent>) -> ScanStats
    decreases events.len(),
{
    if events.len() == 0 {
        s
    } else {
        add_tally(recorded(s, events.drop_last()), event_tally(events.last()))
    }
}

/// Adding `a` then `b` to a wrapping counter adds `a + b`.
proof fn lemma_wrap_add_twice(c: u64, a: nat, b: nat)
    ensures
        wrap_add(wrap_add(c, a), b) == wrap_add(c, a + b),
{
    let m = counter_modulus() as int;
    vstd::arithmetic::div_mod::lemma_add_mod_noop_right(b as int, c + a, m);
}

/// Adding two tallies one after the other adds their sum.
proof fn lemma_add_tally_twice(s: ScanStats, a: Tally, b: Tally)
    ensures
        add_tally(add_tally(s, a), b) == add_tally(s, tally_sum(a, b)),
{
    lemma_wrap_add_twice(s.total_bytes, a.bytes, b.bytes);
    lemma_wrap_add_twice(s.file_count, a.files, b.files);
    lemma_wrap_add_twice(s.dir_count, a.dirs, b.dirs);
    lemma_wrap_add_twice(s.skipped_count, a.skipped, b.skipped);
}

/// The tally of a concatenation is the sum of the tallies.
pub proof fn lemma_tally_concat(a: Seq<ScanEvent>, b: Seq<ScanEvent>)
    ensures
        tally(a + b) == tally_sum(tally(a), tally(b)),
    decreases b.len(),
{
    if b.len() == 0 {
        assert(a + b =~= a);
    } else {
        assert((a + b).drop_last() =~= a + b.drop_last());
        lemma_tally_concat(a, b.drop_last());
    }
}

/// Recording a sequence of events adds exactly their tally, counter by
/// counter, each wrapping around: the scanned bytes are the sum of the
/// lengths of the files and links met, the files the number of files and
/// links, the directories the number of directories, the skips the number
/// of unreadable items.
pub proof fn lemma_recorded_adds_tally(s: ScanStats, events: Seq<ScanEvent>)
    ensures
        recorded(s, events) == add_tally(s, tally(events)),
    decreases events.len(),
{
    if events.len() == 0 {
        assert(add_tally(s, empty_tally()) == s) by {
            vstd::arithmetic::div_mod::lemma_small_mod(s.total_bytes as nat, counter_modulus());
            vstd::arithmetic::div_mod::lemma_small_mod(s.file_count as nat, counter_modulus());
            vstd::arithmetic::div_mod::lemma_small_mod(s.dir_count as nat, counter_modulus());
            vstd::arithmetic::div_mod::lemma_small_mod(s.skipped_count as nat, counter_modulus());
        }
    } else {
        lemma_recorded_adds_tally(s, events.drop_last());
        lemma_add_tally_twice(s, tally(events.drop_last()), event_tally(events.last()));
    }
}

/// Scanning two parts separately and merging the counts gives the counts of
/// scanning both in one go: how a folder's subtrees are split among workers
/// does not change the result.
pub proof fn lemma_merge_split_scans(a: Seq<ScanEvent>, b: Seq<ScanEvent>)
    ensures
        merged(recorded(zero_stats(), a), recorded(zero_stats(), b)) == recorded(
            zero_stats(),
            a + b,
        ),
{
    let z = zero_stats();
    lemma_recorded_adds_tally(z, a);
    lemma_recorded_adds_tally(z, b);
    lemma_recorded_adds_tally(z, a + b);
    lemma_tally_concat(a, b);
    let ra = recorded(z, a);
    let rb = recorded(z, b);
    let m = counter_modulus() as int;
    assert(merged(ra, rb) == add_tally(ra, tally(b))) by {
        vstd::arithmetic::div_mod::lemma_add_mod_noop_right(ra.total_bytes as int, tally(b).bytes as int, m);
        vstd::arithmetic::div_mod::lemma_add_mod_noop_right(ra.file_count as int, tally(b).files as int, m);
        vstd::arithmetic::div_mod::lemma_add_mod_noop_right(ra.dir_count as int, tally(b).dirs as int, m);
        vstd::arithmetic::div_mod::lemma_add_mod_noop_right(ra.skipped_count as int, tally(b).skipped as int, m);
    }
    lemma_add_tally_twice(z, tally(a), tally(b));
}

/// Merging counts does not depend on their order.
pub proof fn lemma_merge_commutes(s: ScanStats, t: ScanStats)
    ensures
        merged(s, t) == merged(t, s),
{
}

/// Whether an event is a file or a link met (whatever its length).
pub open spec fn is_file_or_link(e: ScanEvent) -> bool {
    e matches ScanEvent::Found { kind, .. } && kind != EntryKind::Dir
}

/// Whether an event is a directory met (whatever its length).
pub open spec fn is_directory(e: ScanEvent) -> bool {
    e matches ScanEvent::Found { kind, .. } && kind == EntryKind::Dir
}

/// Whether an event is an unreadable item.
pub open spec fn is_unreadable(e: ScanEvent) -> bool {
    e is Unreadable
}

/// A file or link, empty or not, adds one file and its length in bytes,
/// and leaves the folder and skip counts alone.
pub proof fn lemma_file_or_link_counts_once(s: ScanStats, kind: EntryKind, len: u64)
    requires
        kind != EntryKind::Dir,
    ensures
        add_tally(s, event_tally(ScanEvent::Found { kind, len })) == (ScanStats {
            total_bytes: wrap_add(s.total_bytes, len as nat),
            file_count: wrap_add(s.file_count, 1),
            dir_count: s.dir_count,
            skipped_count: s.skipped_count,
        }),
{
    vstd::arithmetic::div_mod::lemma_small_mod(s.dir_count as nat, counter_modulus());
    vstd::arithmetic::div_mod::lemma_small_mod(s.skipped_count as nat, counter_modulus());
}

/// A directory, whatever its own length, adds one folder and nothing else.
pub proof fn lemma_directory_counts_once(s: ScanStats, len: u64)
    ensures
        add_tally(s, event_tally(ScanEvent::Found { kind: EntryKind::Dir, len })) == (ScanStats {
            total_bytes: s.total_bytes,
            file_count: s.file_count,
            dir_count: wrap_add(s.dir_count, 1),
            skipped_count: s.skipped_count,
        }),
{
    vstd::arithmetic::div_mod::lemma_small_mod(s.total_bytes as nat, counter_modulus());
    vstd::arithmetic::div_mod::lemma_small_mod(s.file_count as nat, counter_modulus());
    vstd::arithmetic::div_mod::lemma_small_mod(s.skipped_count as nat, counter_modulus());
}

/// An unreadable item adds one skip and nothing else.
pub proof fn lemma_unreadable_counts_once(s: ScanStats)
    ensures
        add_tally(s, event_tally(ScanEvent::Unreadable)) == (ScanStats {
            total_bytes: s.total_bytes,
            file_count: s.file_count,
            dir_count: s.dir_count,
            skipped_count: wrap_add(s.skipped_count, 1),
        }),
{
    vstd::arithmetic::div_mod::lemma_small_mod(s.total_bytes as nat, counter_modulus());
    vstd::arithmetic::div_mod::lemma_small_mod(s.file_count as nat, counter_modulus());
    vstd::arithmetic::div_mod::lemma_small_mod(s.dir_count as nat, counter_modulus());
}

/// The scan goes into every directory, whatever its own length, and into
/// nothing else: the decision depends on the entry's kind alone.
pub proof fn lemma_descends_exactly_into_directories(e: ScanEvent)
    ensures
        descends(e) <==> is_directory(e),
        forall|kind: EntryKind, a: u64, b: u64|
            descends(ScanEvent::Found { kind, len: a }) == descends(
                ScanEvent::Found { kind, len: b },
            ),
{
}

/// Over a sequence of events, the exact tally counts one file per file or
/// link met (empty ones too), one folder per directory met, and one skip per
/// unreadable item.
pub proof fn lemma_tally_counts_events(events: Seq<ScanEvent>)
    ensures
        tally(events).files == events.filter(|e: ScanEvent| is_file_or_link(e)).len(),
        tally(events).dirs == events.filter(|e: ScanEvent| is_directory(e)).len(),
        tally(events).skipped == events.filter(|e: ScanEvent| is_unreadable(e)).len(),
    decreases events.len(),
{
    reveal_with_fuel(Seq::filter, 1);
    if events.len() > 0 {
        lemma_tally_counts_events(events.drop_last());
    }
}

impl ScanStats {
    /// All counters zero.
    pub fn new() -> (s: ScanStats)
        ensures
            s == zero_stats(),
    {
        ScanStats { total_bytes: 0, file_count: 0, dir_count: 0, skipped_count: 0 }
    }

    /// Counts one event and says whether the scan descends into the entry.
    pub fn record(&mut self, event: ScanEvent) -> (descend: bool)
        ensures
            *final(self) == add_tally(*old(self), event_tally(event)),
            descend == descends(event),
            descend <==> is_directory(event),
            is_file_or_link(event) ==> {
                &&& final(self).file_count == wrap_add(old(self).file_count, 1)
                &&& final(self).total_bytes == wrap_add(
                    old(self).total_bytes,
                    event->Found_len as nat,
                )
                &&& final(self).dir_count == old(self).dir_count
                &&& final(self).skipped_count == old(self).skipped_count
            },
            is_directory(event) ==> {
                &&& final(self).dir_count == wrap_add(old(self).dir_count, 1)
                &&& final(self).file_count == old(self).file_count
                &&& final(self).total_bytes == old(self).total_bytes
                &&& final(self).skipped_count == old(self).skipped_count
            },
            is_unreadable(event) ==> {
                &&& final(self).skipped_count == wrap_add(old(self).skipped_count, 1)
                &&& final(self).file_count == old(self).file_count
                &&& final(self).total_bytes == old(self).total_bytes
                &&& final(self).dir_count == old(self).dir_count
            },
    {
        proof {
            match event {
                ScanEvent::Unreadable => lemma_unreadable_counts_once(*old(self)),
                ScanEvent::Found { kind, len } => {
                    if kind == EntryKind::Dir {
                        lemma_directory_counts_once(*old(self), len);
                    } else {
                        lemma_file_or_link_counts_once(*old(self), kind, len);
                    }
                },
            }
        }
        match event {
            ScanEvent::Unreadable => {
                self.skipped_count = self.skipped_count.wrapping_add(1);
                false
            },
            ScanEvent::Found { kind, len } => match kind {
                EntryKind::Dir => {
                    self.dir_count = self.dir_count.wrapping_add(1);
                    true
                },
                _ => {
                    self.file_count = self.file_count.wrapping_add(1);
                    self.total_bytes = self.total_bytes.wrapping_add(len);
                    false
                },
            },
        }
    }

    /// Adds the counts of `other`, as of a separately scanned subtree.
    pub fn merge(&mut self, other: &ScanStats)
        ensures
            *final(self) == merged(*old(self), *other),
    {
        self.total_bytes = self.total_bytes.wrapping_add(other.total_bytes);
        self.file_count = self.file_count.wrapping_add(other.file_count);
        self.dir_count = self.dir_count.wrapping_add(other.dir_count);
        self.skipped_count = self.skipped_count.wrapping_add(other.skipped_count);
    }
}

impl Default for ScanStats {
    fn default() -> (s: ScanStats)
        ensures
            s == zero_stats(),
    {
        ScanStats::new()
    }
}

} // verus!
