//! The cache: what is counted, what is looked for at the start, what is served and what must go.
use std::collections::{BTreeMap, HashMap};

use vstd::prelude::*;

use crate::cache_file::{range_text, CacheFileInfo};
use crate::digest::{hasher_finalize, hasher_new, hasher_update, same_hash, Hasher};
use crate::rpc::Settings;
use crate::text::{chars_of, eq_ignore_ascii_case, starts_with, string_of};

verus! {

broadcast use vstd::std_specs::hash::group_hash_axioms;

/// The room that is kept free on the disk.
pub const SIZE_100MB: u64 = 104857600;

/// What is known of the files of one range.
#[derive(Clone, Copy, PartialEq, Eq, Structural, Debug)]
pub struct CacheState {
    pub file_count: u64,
    pub size: u64,
    /// No file is older, in seconds since the epoch.
    pub oldest: i64,
}

impl CacheState {
    /// A range without files.
    pub fn new(now: i64) -> (r: CacheState)
        ensures
            r == (CacheState { file_count: 0, size: 0, oldest: now }),
    {
        CacheState { file_count: 0, size: 0, oldest: now }
    }

    /// Counts a file.
    pub fn add_file(&mut self, size: u64)
        requires
            old(self).file_count < u64::MAX,
            old(self).size + size <= u64::MAX,
        ensures
            *final(self) == old(self).with_file(size as int),
    {
        self.file_count = self.file_count + 1;
        self.size = self.size + size;
    }

    /// Counts a file no longer.
    pub fn remove_file(&mut self, size: u64)
        requires
            old(self).file_count > 0,
            old(self).size >= size,
        ensures
            *final(self) == old(self).without_file(size as int),
    {
        self.file_count = self.file_count - 1;
        self.size = self.size - size;
    }

    /// The range with a file more.
    pub open spec fn with_file(self, size: int) -> CacheState {
        CacheState {
            file_count: (self.file_count + 1) as u64,
            size: (self.size + size) as u64,
            oldest: self.oldest,
        }
    }

    /// The range with a file less.
    pub open spec fn without_file(self, size: int) -> CacheState {
        CacheState {
            file_count: (self.file_count - 1) as u64,
            size: (self.size - size) as u64,
            oldest: self.oldest,
        }
    }
}

/// What is known of a range, or of an empty one.
pub open spec fn state_or_new(states: Map<u16, CacheState>, key: u16, now: i64) -> CacheState {
    if states.contains_key(key) {
        states[key]
    } else {
        CacheState { file_count: 0, size: 0, oldest: now }
    }
}

/// Whether one more file can be counted.
pub open spec fn has_room(states: Map<u16, CacheState>, key: u16, size: u64) -> bool {
    states.contains_key(key) ==> states[key].file_count < u64::MAX && states[key].size + size
        <= u64::MAX
}

/// The bytes of the ranges below `end`.
pub open spec fn size_below(states: Map<u16, CacheState>, end: int) -> int
    decreases end,
{
    if end <= 0 {
        0
    } else {
        let key = (end - 1) as u16;
        size_below(states, end - 1) + if states.contains_key(key) {
            states[key].size as int
        } else {
            0
        }
    }
}

/// The files of the ranges below `end`.
pub open spec fn count_below(states: Map<u16, CacheState>, end: int) -> int
    decreases end,
{
    if end <= 0 {
        0
    } else {
        let key = (end - 1) as u16;
        count_below(states, end - 1) + if states.contains_key(key) {
            states[key].file_count as int
        } else {
            0
        }
    }
}

/// The bytes of all ranges.
pub open spec fn total_size(states: Map<u16, CacheState>) -> int {
    size_below(states, 0x1_0000)
}

/// The files of all ranges.
pub open spec fn total_count(states: Map<u16, CacheState>) -> int {
    count_below(states, 0x1_0000)
}

proof fn lemma_below_monotone(states: Map<u16, CacheState>, a: int, b: int)
    requires
        0 <= a <= b,
    ensures
        0 <= size_below(states, a) <= size_below(states, b),
        0 <= count_below(states, a) <= count_below(states, b),
    decreases b,
{
    if a < b {
        lemma_below_monotone(states, a, b - 1);
    } else if a > 0 {
        lemma_below_monotone(states, a - 1, a - 1);
    }
}

proof fn lemma_below_insert(states: Map<u16, CacheState>, key: u16, state: CacheState, end: int)
    requires
        0 <= end <= 0x1_0000,
    ensures
        size_below(states.insert(key, state), end) == size_below(states, end) + if key < end {
            state.size - size_of(states, key)
        } else {
            0
        },
        count_below(states.insert(key, state), end) == count_below(states, end) + if key < end {
            state.file_count - count_of(states, key)
        } else {
            0
        },
    decreases end,
{
    if end > 0 {
        lemma_below_insert(states, key, state, end - 1);
    }
}

/// The bytes of one range.
pub open spec fn size_of(states: Map<u16, CacheState>, key: u16) -> int {
    if states.contains_key(key) {
        states[key].size as int
    } else {
        0
    }
}

/// The files of one range.
pub open spec fn count_of(states: Map<u16, CacheState>, key: u16) -> int {
    if states.contains_key(key) {
        states[key].file_count as int
    } else {
        0
    }
}

/// A file that is counted adds its size to the total and one to the number of files.
pub proof fn total_follows_new_file(states: Map<u16, CacheState>, key: u16, size: u64, now: i64)
    requires
        has_room(states, key, size),
    ensures
        total_size(states.insert(key, state_or_new(states, key, now).with_file(size as int)))
            == total_size(states) + size,
        total_count(states.insert(key, state_or_new(states, key, now).with_file(size as int)))
            == total_count(states) + 1,
{
    let state = state_or_new(states, key, now).with_file(size as int);
    lemma_below_insert(states, key, state, 0x1_0000);
}

/// Taking a file away again restores what was counted.
pub proof fn removing_undoes_adding(state: CacheState, size: u64)
    requires
        state.file_count < u64::MAX,
        state.size + size <= u64::MAX,
    ensures
        state.with_file(size as int).without_file(size as int) == state,
{
}

/// A file that is counted and then counted no longer leaves the totals as they were, whether its range
/// was known before or not.
pub proof fn removing_restores_totals(states: Map<u16, CacheState>, key: u16, size: u64, now: i64)
    requires
        has_room(states, key, size),
    ensures
        ({
            let counted = states.insert(key, state_or_new(states, key, now).with_file(size as int));
            let removed = counted.insert(key, counted[key].without_file(size as int));
            total_size(removed) == total_size(states) && total_count(removed) == total_count(states)
        }),
{
    let state = state_or_new(states, key, now).with_file(size as int);
    let counted = states.insert(key, state);
    lemma_below_insert(states, key, state, 0x1_0000);
    lemma_below_insert(counted, key, state.without_file(size as int), 0x1_0000);
}

/// The start of the cache: where and how the files are gone through.
#[derive(Clone, Copy, PartialEq, Eq, Structural, Debug)]
pub struct ScanPlan {
    /// Whether there is hardly any room on the disk.
    pub low_disk: bool,
    /// Whether the client waits for the scan to end.
    pub foreground: bool,
    /// How many files are looked at at the same time.
    pub parallelism: usize,
    /// Whether the content of every file is checked.
    pub verify: bool,
}

/// How the cache is gone through at the start: in the foreground if there is hardly any room, or if
/// the server asks for a check and the user does not want it in the background.
pub fn scan_plan(verify_cache: bool, force_background_scan: bool, free: Option<u64>) -> (r: ScanPlan)
    ensures
        r.low_disk == (free matches Some(room) && room < SIZE_100MB),
        r.foreground == (r.low_disk || (verify_cache && !force_background_scan)),
        r.parallelism == if r.foreground {
            16
        } else {
            4usize
        },
        r.verify == verify_cache,
{
    let low_disk = match free {
        Some(room) => room < SIZE_100MB,
        None => false,
    };
    let foreground = low_disk || (verify_cache && !force_background_scan);
    let parallelism: usize = if foreground { 16 } else { 4 };
    ScanPlan { low_disk, foreground, parallelism, verify: verify_cache }
}

/// Whether a directory of the cache belongs to a range that this client keeps. The directory's two
/// names make up the range, in letters of either case.
pub open spec fn range_kept(first: Seq<char>, second: Seq<char>, ranges: Seq<Seq<char>>) -> bool {
    exists|i: int|
        0 <= i < ranges.len() && crate::text::ascii_lower_seq(first + second)
            == crate::text::ascii_lower_seq(#[trigger] ranges[i])
}

fn dir_in_range(first: &str, second: &str, ranges: &Vec<String>) -> (r: bool)
    ensures
        r == range_kept(first@, second@, crate::text::texts(ranges@)),
{
    let mut name = first.to_owned();
    name.append(second);
    let ghost all = crate::text::texts(ranges@);
    for i in 0..ranges.len()
        invariant
            name@ == first@ + second@,
            all == crate::text::texts(ranges@),
            forall|j: int|
                0 <= j < i ==> crate::text::ascii_lower_seq(name@) != crate::text::ascii_lower_seq(
                    #[trigger] all[j],
                ),
    {
        assert(all[i as int] == ranges@[i as int]@);
        if eq_ignore_ascii_case(name.as_str(), ranges[i].as_str()) {
            return true;
        }
    }
    false
}

/// What a scan does with an entry of a directory.
pub enum ScanEntry {
    /// A directory is left alone.
    Directory,
    /// A file with a name that says nothing is left alone.
    Unknown,
    /// A file of the wrong size is removed.
    Remove,
    /// The content of the file is to be checked.
    Verify(CacheFileInfo),
    /// The file is counted.
    Count(CacheFileInfo),
}

/// What a scan does with an entry of a directory. A name that is not a text says nothing.
pub open spec fn entry_decided(
    r: ScanEntry,
    name: Option<Seq<char>>,
    is_dir: bool,
    len: u64,
    verify_cache: bool,
) -> bool {
    let id = match name {
        Some(text) => crate::cache_file::parse_file_id(text),
        None => None,
    };
    if is_dir {
        r is Directory
    } else {
        match id {
            None => r is Unknown,
            Some(id) => if len != id.size {
                r is Remove
            } else if verify_cache {
                r matches ScanEntry::Verify(info) && info@ == id
            } else {
                r matches ScanEntry::Count(info) && info@ == id
            },
        }
    }
}

fn scan_entry(name: Option<&str>, is_dir: bool, len: u64, verify_cache: bool) -> (r: ScanEntry)
    ensures
        entry_decided(r, crate::text::opt_str(name), is_dir, len, verify_cache),
{
    if is_dir {
        return ScanEntry::Directory;
    }
    let info = match name {
        Some(text) => CacheFileInfo::from_file_id(text),
        None => None,
    };
    match info {
        Some(info) => {
            if len != info.size() as u64 {
                ScanEntry::Remove
            } else if verify_cache {
                ScanEntry::Verify(info)
            } else {
                ScanEntry::Count(info)
            }
        },
        None => ScanEntry::Unknown,
    }
}

/// What a scan found and counted: the range of a file, its size on the disk, and when it was changed.
#[verifier::ext_equal]
pub struct FoundFile {
    pub key: u16,
    pub size: u64,
    pub mtime: i64,
}

/// What is known after a scan has counted some files.
pub open spec fn scanned(
    states: Map<u16, CacheState>,
    files: Seq<FoundFile>,
    now: i64,
) -> Map<u16, CacheState>
    decreases files.len(),
{
    if files.len() == 0 {
        states
    } else {
        let before = scanned(states, files.drop_last(), now);
        let file = files.last();
        before.insert(
            file.key,
            with_scanned(state_or_new(before, file.key, now), file.size as int, file.mtime),
        )
    }
}

/// The sizes of some files.
pub open spec fn found_size(files: Seq<FoundFile>) -> int
    decreases files.len(),
{
    if files.len() == 0 {
        0
    } else {
        found_size(files.drop_last()) + files.last().size
    }
}

proof fn lemma_one_below_total(states: Map<u16, CacheState>, key: u16)
    ensures
        size_of(states, key) <= total_size(states),
        count_of(states, key) <= total_count(states),
{
    lemma_below_monotone(states, key as int, key as int);
    lemma_below_monotone(states, key + 1, 0x1_0000);
}

/// A scan of an empty cache counts every file once: the total is the sum of the sizes, and the number
/// is that of the files.
pub proof fn scan_counts_every_file(files: Seq<FoundFile>, now: i64)
    requires
        found_size(files) <= u64::MAX,
        files.len() <= u64::MAX,
    ensures
        total_size(scanned(Map::empty(), files, now)) == found_size(files),
        total_count(scanned(Map::empty(), files, now)) == files.len(),
        found_size(files) >= 0,
    decreases files.len(),
{
    if files.len() == 0 {
        lemma_empty_below(0x1_0000);
    } else {
        scan_counts_every_file(files.drop_last(), now);
        let before = scanned(Map::empty(), files.drop_last(), now);
        let file = files.last();
        lemma_one_below_total(before, file.key);
        let state = with_scanned(state_or_new(before, file.key, now), file.size as int, file.mtime);
        lemma_below_insert(before, file.key, state, 0x1_0000);
    }
}

proof fn lemma_empty_below(end: int)
    requires
        0 <= end <= 0x1_0000,
    ensures
        size_below(Map::<u16, CacheState>::empty(), end) == 0,
        count_below(Map::<u16, CacheState>::empty(), end) == 0,
    decreases end,
{
    if end > 0 {
        lemma_empty_below(end - 1);
    }
}

/// After a scan no file is older than its range is said to be.
pub proof fn scan_finds_the_oldest(states: Map<u16, CacheState>, files: Seq<FoundFile>, now: i64, i: int)
    requires
        0 <= i < files.len(),
    ensures
        scanned(states, files, now).contains_key(files[i].key),
        scanned(states, files, now)[files[i].key].oldest <= files[i].mtime,
    decreases files.len(),
{
    if i < files.len() - 1 {
        scan_finds_the_oldest(states, files.drop_last(), now, i);
        assert(files.drop_last()[i] == files[i]);
    }
}

/// How far a scan has come: the ranges that this client keeps, how many of their directories there
/// are, and how many of those have been gone through.
#[verifier::ext_equal]
pub struct ScanView {
    pub ranges: Seq<Seq<char>>,
    pub verify: bool,
    pub total: nat,
    pub counter: nat,
}

/// A scan of the cache.
#[derive(Debug)]
pub struct CacheScan {
    static_range: Vec<String>,
    verify_cache: bool,
    total: usize,
    counter: usize,
}

impl View for CacheScan {
    type V = ScanView;

    closed spec fn view(&self) -> ScanView {
        ScanView {
            ranges: crate::text::texts(self.static_range@),
            verify: self.verify_cache,
            total: self.total as nat,
            counter: self.counter as nat,
        }
    }
}

impl CacheScan {
    /// A scan starts.
    pub fn new(static_range: Vec<String>, verify_cache: bool) -> (r: CacheScan)
        ensures
            r@ == (ScanView {
                ranges: crate::text::texts(static_range@),
                verify: verify_cache,
                total: 0,
                counter: 0,
            }),
    {
        CacheScan { static_range, verify_cache, total: 0, counter: 0 }
    }

    /// A directory was found below the directory of the cache: whether it is kept. What belongs to no
    /// range of this client is removed.
    pub fn directory(&mut self, first: &str, second: &str) -> (r: bool)
        requires
            old(self)@.total < usize::MAX,
        ensures
            r == range_kept(first@, second@, old(self)@.ranges),
            final(self)@ == if r {
                (ScanView { total: old(self)@.total + 1, ..old(self)@ })
            } else {
                old(self)@
            },
    {
        let kept = dir_in_range(first, second, &self.static_range);
        if kept {
            self.total = self.total + 1;
        }
        kept
    }

    /// An entry of a directory that is kept was found: what is done with it.
    pub fn entry(&self, name: Option<&str>, is_dir: bool, len: u64) -> (r: ScanEntry)
        ensures
            entry_decided(r, crate::text::opt_str(name), is_dir, len, self@.verify),
    {
        scan_entry(name, is_dir, len, self.verify_cache)
    }

    /// A directory was gone through: whether the progress is reported.
    pub fn range_done(&mut self) -> (r: bool)
        requires
            old(self)@.counter < old(self)@.total,
        ensures
            final(self)@ == (ScanView { counter: old(self)@.counter + 1, ..old(self)@ }),
            r == (final(self)@.counter % 100 == 0 || final(self)@.counter == final(self)@.total),
    {
        self.counter = self.counter + 1;
        self.counter % 100 == 0 || self.counter == self.total
    }

    /// How many directories were gone through, and how many there are.
    pub fn progress(&self) -> (r: (usize, usize))
        ensures
            r.0 == self@.counter,
            r.1 == self@.total,
    {
        (self.counter, self.total)
    }

    /// Whether the cache is lost: a client to which many ranges are assigned cannot have none.
    pub fn cache_lost(&self) -> (r: bool)
        ensures
            r == (self@.counter == 0 && self@.ranges.len() > 20),
    {
        assert(self@.ranges.len() == self.static_range@.len());
        self.counter == 0 && self.static_range.len() > 20
    }
}

/// Whether a file of the temporary directory is left over from an earlier run.
pub fn is_old_temp_file(name: &str, is_file: bool) -> (r: bool)
    ensures
        r == (is_file && "proxyfile_"@.is_prefix_of(name@)),
{
    is_file && starts_with(name, "proxyfile_")
}

/// The content of a cached file as it is read, held against the file's name at the end.
pub struct CacheCheck {
    hasher: Hasher,
}

impl CacheCheck {
    /// The bytes read so far.
    pub closed spec fn bytes(&self) -> Seq<u8> {
        crate::digest::hasher_bytes(self.hasher)
    }

    /// Nothing has been read yet.
    pub fn new() -> (r: CacheCheck)
        ensures
            r.bytes() == Seq::<u8>::empty(),
    {
        CacheCheck { hasher: hasher_new() }
    }

    /// Takes the bytes that come next.
    pub fn update(&mut self, data: &[u8])
        requires
            old(self).bytes().len() + data@.len() < crate::digest::DIGEST_LIMIT,
        ensures
            final(self).bytes() == old(self).bytes() + data@,
    {
        hasher_update(&mut self.hasher, data);
    }

    /// Whether what was read is the file that the name promises.
    pub fn intact(self, info: &CacheFileInfo) -> (r: bool)
        ensures
            r == (crate::digest::sha1_digest(self.bytes()) == info@.hash),
    {
        let actual = hasher_finalize(self.hasher);
        let expected = info.hash();
        same_hash(&actual, &expected)
    }
}

/// How a cached file is served.
#[derive(Clone, Copy, PartialEq, Eq, Structural, Debug)]
pub enum FilePlan {
    /// There is no such file, or it is not what its name says.
    Missing,
    /// It was used not long ago, and is served as it is.
    Serve,
    /// It is marked as used, and checked while it is served.
    ServeAndCheck,
}

/// What is seen of a file: whether it is a regular file, its length, and when it was changed, in
/// seconds and nanoseconds since the epoch.
#[derive(Clone, Copy, PartialEq, Eq, Structural, Debug)]
pub struct FileStat {
    pub is_file: bool,
    pub len: u64,
    pub mtime: i64,
    pub mtime_nanos: u32,
}

/// Whether a time is not before another one. Times are seconds and nanoseconds.
pub open spec fn not_before(secs: int, nanos: int, other_secs: int, other_nanos: int) -> bool {
    secs > other_secs || (secs == other_secs && nanos >= other_nanos)
}

/// One week, in seconds.
pub const ONE_WEEK: i64 = 604800;

/// A file that is checked while it is served: it is read until its length has been reached.
pub struct CheckedRead {
    check: CacheCheck,
    read_off: u64,
    file_size: u64,
}

impl CheckedRead {
    /// The bytes read so far.
    pub closed spec fn bytes(&self) -> Seq<u8> {
        self.check.bytes()
    }

    /// The length of the file.
    pub closed spec fn size(&self) -> u64 {
        self.file_size
    }

    /// The offset is the number of bytes read.
    pub closed spec fn wf(&self) -> bool {
        self.read_off == self.check.bytes().len()
    }

    /// Nothing has been read yet.
    pub fn new(file_size: u64) -> (r: CheckedRead)
        ensures
            r.wf(),
            r.bytes() == Seq::<u8>::empty(),
            r.size() == file_size,
    {
        CheckedRead { check: CacheCheck::new(), read_off: 0, file_size }
    }

    /// Whether there is more to read.
    pub fn wants_more(&self) -> (r: bool)
        requires
            self.wf(),
        ensures
            r == (self.bytes().len() < self.size()),
    {
        self.read_off < self.file_size
    }

    /// Takes the bytes that come next. They go to the client too.
    pub fn update(&mut self, data: &[u8])
        requires
            old(self).wf(),
            old(self).bytes().len() + data@.len() < crate::digest::DIGEST_LIMIT,
        ensures
            final(self).wf(),
            final(self).bytes() == old(self).bytes() + data@,
            final(self).size() == old(self).size(),
    {
        self.check.update(data);
        self.read_off = self.read_off + data.len() as u64;
    }

    /// Whether the file must be removed, as its content is not what its name promises.
    pub fn corrupt(self, info: &CacheFileInfo) -> (r: bool)
        ensures
            r == (crate::digest::sha1_digest(self.bytes()) != info@.hash),
    {
        !self.check.intact(info)
    }
}

/// What the cache knows of its files.
#[verifier::ext_equal]
pub struct ManagerView {
    pub states: Map<u16, CacheState>,
    pub limit: u64,
}

/// The cache.
pub struct CacheManager {
    cache_state: HashMap<u16, CacheState>,
    size_limit: u64,
}

impl View for CacheManager {
    type V = ManagerView;

    closed spec fn view(&self) -> ManagerView {
        ManagerView { states: self.cache_state@, limit: self.size_limit }
    }
}

/// What is known of a range after one of its files has been counted.
pub open spec fn with_scanned(state: CacheState, size: int, mtime: i64) -> CacheState {
    let counted = state.with_file(size);
    if counted.oldest > mtime {
        CacheState { oldest: mtime, ..counted }
    } else {
        counted
    }
}

impl CacheManager {
    /// A cache of which nothing is known yet.
    pub fn new(settings: &Settings) -> (r: CacheManager)
        ensures
            r@.states == Map::<u16, CacheState>::empty(),
            r@.limit == settings.limit(),
    {
        let mut manager = CacheManager { cache_state: HashMap::new(), size_limit: u64::MAX };
        manager.update_settings(settings);
        manager
    }

    /// Takes the limit over.
    pub fn update_settings(&mut self, settings: &Settings)
        ensures
            final(self)@ == (ManagerView { limit: settings.limit(), ..old(self)@ }),
    {
        self.size_limit = settings.size_limit();
    }

    /// How a cached file is served. The content is checked once a week.
    pub fn get_file(info: &CacheFileInfo, stat: Option<FileStat>, now: i64, now_nanos: u32) -> (r: FilePlan)
        requires
            now >= i64::MIN + ONE_WEEK,
        ensures
            r == match stat {
                Some(stat) => if !stat.is_file || stat.len != info@.size {
                    FilePlan::Missing
                } else if not_before(
                    stat.mtime as int,
                    stat.mtime_nanos as int,
                    now - ONE_WEEK,
                    now_nanos as int,
                ) {
                    FilePlan::Serve
                } else {
                    FilePlan::ServeAndCheck
                },
                None => FilePlan::Missing,
            },
    {
        match stat {
            Some(stat) => {
                let limit: i64 = now - ONE_WEEK;
                if !stat.is_file || stat.len != info.size() as u64 {
                    FilePlan::Missing
                } else if stat.mtime > limit || (stat.mtime == limit && stat.mtime_nanos >= now_nanos) {
                    FilePlan::Serve
                } else {
                    FilePlan::ServeAndCheck
                }
            },
            None => FilePlan::Missing,
        }
    }

    /// What is known of a range.
    pub fn state(&self, key: u16) -> (r: Option<CacheState>)
        ensures
            match r {
                Some(state) => self@.states.contains_key(key) && state == self@.states[key],
                None => !self@.states.contains_key(key),
            },
    {
        match self.cache_state.get(&key) {
            Some(state) => Some(*state),
            None => None,
        }
    }

    fn state_or_default(&self, key: u16, now: i64) -> (r: CacheState)
        ensures
            r == state_or_new(self@.states, key, now),
    {
        match self.state(key) {
            Some(state) => state,
            None => CacheState::new(now),
        }
    }

    /// Counts a file that was put into the cache. A range that was empty counts from now on.
    pub fn import_cache(&mut self, info: &CacheFileInfo, size: u64, now: i64)
        requires
            has_room(old(self)@.states, info@.key() as u16, size),
        ensures
            final(self)@ == (ManagerView {
                states: old(self)@.states.insert(
                    info@.key() as u16,
                    state_or_new(old(self)@.states, info@.key() as u16, now).with_file(size as int),
                ),
                ..old(self)@
            }),
    {
        let key: u16 = info.range_key();
        let mut state = self.state_or_default(key, now);
        state.add_file(size);
        self.cache_state.insert(key, state);
    }

    /// Counts a file that was found in the cache, and when it was changed.
    pub fn scan_file(&mut self, info: &CacheFileInfo, size: u64, mtime: i64, now: i64)
        requires
            has_room(old(self)@.states, info@.key() as u16, size),
        ensures
            final(self)@ == (ManagerView {
                states: old(self)@.states.insert(
                    info@.key() as u16,
                    with_scanned(
                        state_or_new(old(self)@.states, info@.key() as u16, now),
                        size as int,
                        mtime,
                    ),
                ),
                ..old(self)@
            }),
    {
        let key: u16 = info.range_key();
        let mut state = self.state_or_default(key, now);
        state.add_file(size);
        if state.oldest > mtime {
            state.oldest = mtime;
        }
        self.cache_state.insert(key, state);
    }

    /// Counts a file that was removed no longer. Nothing is counted of a range that is not known.
    pub fn remove_cache(&mut self, info: &CacheFileInfo, size: u64)
        requires
            old(self)@.states.contains_key(info@.key() as u16) ==> {
                let state = old(self)@.states[info@.key() as u16];
                state.file_count > 0 && state.size >= size
            },
        ensures
            final(self)@ == if old(self)@.states.contains_key(info@.key() as u16) {
                (ManagerView {
                    states: old(self)@.states.insert(
                        info@.key() as u16,
                        old(self)@.states[info@.key() as u16].without_file(size as int),
                    ),
                    ..old(self)@
                })
            } else {
                old(self)@
            },
    {
        let key: u16 = info.range_key();
        match self.state(key) {
            Some(state) => {
                let mut state = state;
                state.remove_file(size);
                self.cache_state.insert(key, state);
            },
            None => {},
        }
    }

    /// The bytes and the files of all ranges, `None` if they are too many to tell.
    pub fn totals(&self) -> (r: Option<(u64, u64)>)
        ensures
            match r {
                Some((size, count)) => size == total_size(self@.states) && count == total_count(
                    self@.states,
                ),
                None => total_size(self@.states) > u64::MAX || total_count(self@.states) > u64::MAX,
            },
    {
        let mut size: u64 = 0;
        let mut count: u64 = 0;
        for i in 0u32..0x1_0000u32
            invariant
                size == size_below(self@.states, i as int),
                count == count_below(self@.states, i as int),
        {
            proof {
                lemma_below_monotone(self@.states, i + 1, 0x1_0000);
            }
            match self.state(i as u16) {
                Some(state) => {
                    if size > u64::MAX - state.size || count > u64::MAX - state.file_count {
                        return None;
                    }
                    size = size + state.size;
                    count = count + state.file_count;
                },
                None => {},
            }
        }
        Some((size, count))
    }

    fn sum_of_sizes(&self) -> (r: Option<u64>)
        ensures
            match r {
                Some(size) => size == total_size(self@.states),
                None => total_size(self@.states) > u64::MAX,
            },
    {
        let mut size: u64 = 0;
        for i in 0u32..0x1_0000u32
            invariant
                size == size_below(self@.states, i as int),
        {
            proof {
                lemma_below_monotone(self@.states, i + 1, 0x1_0000);
            }
            match self.state(i as u16) {
                Some(state) => {
                    if size > u64::MAX - state.size {
                        return None;
                    }
                    size = size + state.size;
                },
                None => {},
            }
        }
        Some(size)
    }

    /// How much must go, given the room on the disk, if it can be told. `None` if the sum is too
    /// large to tell.
    pub fn check_cache_usage(&self, disk_free: Option<u64>) -> (r: Option<u64>)
        ensures
            match r {
                Some(need) => need == space_needed(self@, disk_free) && total_size(self@.states)
                    <= u64::MAX,
                None => total_size(self@.states) > u64::MAX || space_needed(self@, disk_free)
                    > u64::MAX,
            },
    {
        let total = match self.sum_of_sizes() {
            Some(total) => total,
            None => {
                return None;
            },
        };
        let over: u64 = if total > self.size_limit { total - self.size_limit } else { 0 };
        match disk_free {
            Some(free) => {
                if free < SIZE_100MB {
                    over.checked_add(SIZE_100MB - free)
                } else {
                    Some(over)
                }
            },
            None => Some(over),
        }
    }

    /// A range of which no other has older files, `None` if no range is known.
    pub fn oldest_range(&self) -> (r: Option<(u16, i64)>)
        ensures
            match r {
                Some((key, oldest)) => self@.states.contains_key(key) && self@.states[key].oldest
                    == oldest && (forall|k: u16| #[trigger]
                    self@.states.contains_key(k) ==> oldest <= self@.states[k].oldest),
                None => forall|k: u16| !#[trigger] self@.states.contains_key(k),
            },
    {
        let mut best: Option<(u16, i64)> = None;
        for i in 0u32..0x1_0000u32
            invariant
                match best {
                    Some((key, oldest)) => self@.states.contains_key(key) && self@.states[key].oldest
                        == oldest && (forall|k: u16|
                        k < i && #[trigger] self@.states.contains_key(k) ==> oldest
                            <= self@.states[k].oldest),
                    None => forall|k: u16| k < i ==> !#[trigger] self@.states.contains_key(k),
                },
        {
            match self.state(i as u16) {
                Some(state) => {
                    let better = match best {
                        Some((_, oldest)) => state.oldest < oldest,
                        None => true,
                    };
                    if better {
                        best = Some((i as u16, state.oldest));
                    }
                },
                None => {},
            }
        }
        best
    }

    /// Where to free some room next: in the range with the oldest files. `None` if nothing must go, or
    /// no range is known.
    pub fn clean_target(&self, need_free: u64) -> (r: Option<CleanTarget>)
        ensures
            match r {
                Some(target) => need_free > 0 && self@.states.contains_key(target.key)
                    && self@.states[target.key].oldest == target.oldest && (forall|k: u16| #[trigger]
                    self@.states.contains_key(k) ==> target.oldest <= self@.states[k].oldest)
                    && target.first@ + target.second@ == crate::cache_file::range_of_key(target.key)
                    && target.first@.len() == 2,
                None => need_free == 0 || forall|k: u16| !#[trigger] self@.states.contains_key(k),
            },
    {
        if need_free == 0 {
            return None;
        }
        match self.oldest_range() {
            Some((key, oldest)) => {
                let text = range_text(key);
                let chars = chars_of(text.as_str());
                let first = string_of(&chars, 0, 2);
                let second = string_of(&chars, 2, 4);
                assert(first@ + second@ =~= text@);
                Some(CleanTarget { key, first, second, oldest })
            },
            None => None,
        }
    }

    /// Takes note of how old the files of a range are after it was cleaned.
    pub fn set_oldest(&mut self, key: u16, oldest: i64)
        ensures
            final(self)@ == if old(self)@.states.contains_key(key) {
                (ManagerView {
                    states: old(self)@.states.insert(
                        key,
                        CacheState { oldest, ..old(self)@.states[key] },
                    ),
                    ..old(self)@
                })
            } else {
                old(self)@
            },
    {
        match self.state(key) {
            Some(state) => {
                let state = CacheState { oldest, ..state };
                self.cache_state.insert(key, state);
            },
            None => {},
        }
    }
}

/// A range to free some room in: its number, its two directories, and how old its files are.
#[derive(Debug)]
pub struct CleanTarget {
    pub key: u16,
    pub first: String,
    pub second: String,
    pub oldest: i64,
}

/// How much must go: what is over the limit, and what is missing to the room that is kept free.
pub open spec fn space_needed(v: ManagerView, disk_free: Option<u64>) -> int {
    let total = total_size(v.states);
    let over = if total > v.limit {
        total - v.limit
    } else {
        0
    };
    let missing = match disk_free {
        Some(free) if free < SIZE_100MB => SIZE_100MB - free,
        _ => 0,
    };
    over + missing
}

/// A cache within its limit on a disk with room is left alone.
pub proof fn small_cache_is_left_alone(v: ManagerView, free: u64)
    requires
        total_size(v.states) <= v.limit,
        free >= SIZE_100MB,
    ensures
        space_needed(v, Some(free)) == 0,
        space_needed(v, None) == 0,
{
}

/// The files to check, in the order in which they lie on the disk.
pub struct VerifyQueue {
    tree: BTreeMap<u64, String>,
}

/// Whether each number is larger than the one before.
pub open spec fn ascending(keys: Seq<u64>) -> bool {
    forall|i: int, j: int| 0 <= i < j < keys.len() ==> keys[i] < keys[j]
}

impl View for VerifyQueue {
    type V = Map<u64, Seq<char>>;

    closed spec fn view(&self) -> Map<u64, Seq<char>> {
        self.tree@.map_values(|path: String| path@)
    }
}

impl VerifyQueue {
    /// No files yet.
    pub fn new() -> (r: VerifyQueue)
        ensures
            r@ == Map::<u64, Seq<char>>::empty(),
    {
        let r = VerifyQueue { tree: BTreeMap::new() };
        assert(r@ =~= Map::empty());
        r
    }

    /// Adds a file by its number on the disk, or where it has none by the number of files so far. A
    /// file that has the number of another takes its place.
    pub fn insert(&mut self, inode: Option<u64>, path: String)
        ensures
            final(self)@ == old(self)@.insert(
                match inode {
                    Some(n) => n,
                    None => old(self)@.len() as u64,
                },
                path@,
            ),
    {
        broadcast use vstd::std_specs::btree::group_btree_axioms;

        assert(self@.dom() =~= self.tree@.dom());
        let key: u64 = match inode {
            Some(n) => n,
            None => self.tree.len() as u64,
        };
        self.tree.insert(key, path);
        assert(self@ =~= old(self)@.insert(key, path@));
    }

    /// The files by their numbers.
    pub fn paths(&self) -> (r: Vec<String>)
        ensures
            exists|keys: Seq<u64>| #[trigger]
                ascending(keys) && keys.to_set() == self@.dom() && crate::text::texts(r@)
                    == keys.map_values(|k: u64| self@[k]),
    {
        broadcast use vstd::std_specs::btree::group_btree_axioms;

        let mut out: Vec<String> = Vec::new();
        let items = self.tree.iter();
        let ghost all = vstd::std_specs::iter::IteratorSpec::remaining(&items);
        let ghost keys = all.map_values(|kv: (&u64, &String)| *kv.0);
        proof {
            assert(vstd::std_specs::btree::increasing_seq(keys));
            assert forall|i: int, j: int| 0 <= i < j < keys.len() implies keys[i] < keys[j] by {
                assert(vstd::laws_cmp::obeys_cmp::<u64>());
                assert(vstd::std_specs::cmp::OrdSpec::cmp_spec(&keys[i], &keys[j]) is Less);
            }
            assert(ascending(keys));
            assert(keys.to_set() =~= self@.dom()) by {
                assert forall|k: u64| self@.dom().contains(k) implies keys.to_set().contains(k) by {
                    let at = all.index_of((&k, &self.tree@[k]));
                    assert(keys[at] == k);
                }
                assert forall|k: u64| keys.to_set().contains(k) implies self@.dom().contains(k) by {
                    let at = keys.index_of(k);
                    assert(self.tree@.contains_key(*all[at].0));
                }
            }
        }
        for (k, path) in it: items
            invariant
                it.seq() == all,
                out@.len() == it.index(),
                forall|i: int| 0 <= i < it.index() ==> #[trigger] out@[i]@ == all[i].1@,
        {
            out.push(path.clone());
        }
        assert(crate::text::texts(out@) =~= keys.map_values(|k: u64| self@[k])) by {
            assert forall|i: int| 0 <= i < out@.len() implies out@[i]@ == self@[keys[i]] by {
                assert(self.tree@[*all[i].0] == *all[i].1);
            }
        }
        out
    }
}

/// A file of a range: when it was changed, in seconds and nanoseconds, and its place in the list
/// that was read.
pub type AgedFile = (i64, u32, usize);

/// Whether a file comes before another one in a list sorted by age.
pub open spec fn aged_le(a: AgedFile, b: AgedFile) -> bool {
    a.0 < b.0 || (a.0 == b.0 && (a.1 < b.1 || (a.1 == b.1 && a.2 <= b.2)))
}

/// Whether a list is sorted by age.
pub open spec fn by_age(files: Seq<AgedFile>) -> bool {
    forall|i: int, j: int| 0 <= i <= j < files.len() ==> aged_le(files[i], files[j])
}

/// `sort_unstable` of the standard library: the same items, in ascending order. Tuples of integers
/// are ordered by the first place in which they differ.
#[verifier::external_body]
fn sort_by_age(files: &mut Vec<AgedFile>)
    ensures
        final(files)@.to_multiset() == old(files)@.to_multiset(),
        by_age(final(files)@),
{
    files.sort_unstable()
}

/// One day, in seconds.
pub const ONE_DAY: i64 = 86400;

/// How far the cleaning of a range has come.
#[verifier::ext_equal]
pub struct CleanView {
    /// The files of the range, the oldest first.
    pub files: Seq<AgedFile>,
    /// How many of them have been looked at.
    pub looked_at: nat,
    /// How much must still go.
    pub need: u64,
    /// Nothing newer is removed.
    pub cut_off: int,
    /// The age of the range after the cleaning.
    pub new_oldest: i64,
    /// Whether the cleaning is over.
    pub over: bool,
}

impl CleanView {
    pub open spec fn wf(self) -> bool {
        by_age(self.files) && self.looked_at <= self.files.len()
    }

    /// Whether the next file is spared, and with it all that follow.
    pub open spec fn spares_next(self) -> bool {
        let file = self.files[self.looked_at as int];
        self.need == 0 || !not_before(self.cut_off, 0, file.0 as int, file.1 as int)
    }
}

/// The next file to remove, and the state afterwards.
pub open spec fn clean_next(v: CleanView) -> (CleanView, Option<usize>) {
    if v.over || v.looked_at >= v.files.len() {
        (CleanView { over: true, ..v }, None)
    } else if v.spares_next() {
        (CleanView { over: true, new_oldest: v.files[v.looked_at as int].0, ..v }, None)
    } else {
        (CleanView { looked_at: v.looked_at + 1, ..v }, Some(v.files[v.looked_at as int].2))
    }
}

/// What must still go after a file of some size has gone.
pub open spec fn need_without(need: u64, size: u64) -> u64 {
    if need >= size {
        (need - size) as u64
    } else {
        0
    }
}

/// The cleaning of one range: its files are removed, the oldest first, until enough is free or the
/// rest is newer than a day after the oldest.
pub struct CleanPass {
    files: Vec<AgedFile>,
    looked_at: usize,
    need_free: u64,
    cut_off: i64,
    new_oldest: i64,
    over: bool,
}

impl View for CleanPass {
    type V = CleanView;

    closed spec fn view(&self) -> CleanView {
        CleanView {
            files: self.files@,
            looked_at: self.looked_at as nat,
            need: self.need_free,
            cut_off: self.cut_off as int,
            new_oldest: self.new_oldest,
            over: self.over,
        }
    }
}

impl CleanPass {
    /// The cleaning of a range starts. Without a file, the range is as old as now.
    pub fn new(files: Vec<AgedFile>, oldest: i64, need_free: u64, now: i64) -> (r: CleanPass)
        requires
            oldest <= i64::MAX - ONE_DAY,
        ensures
            r@.wf(),
            r@.files.to_multiset() == files@.to_multiset(),
            r@.files.len() == files@.len(),
            r@.looked_at == 0,
            r@.need == need_free,
            r@.cut_off == oldest + ONE_DAY,
            r@.new_oldest == if files@.len() == 0 {
                now
            } else {
                r@.files.last().0
            },
            !r@.over,
    {
        let mut files = files;
        let ghost before = files@;
        sort_by_age(&mut files);
        proof {
            before.to_multiset_ensures();
            files@.to_multiset_ensures();
        }
        let n = files.len();
        let new_oldest: i64 = if n == 0 { now } else { files[n - 1].0 };
        CleanPass {
            files,
            looked_at: 0,
            need_free,
            cut_off: oldest + ONE_DAY,
            new_oldest,
            over: false,
        }
    }

    /// The place of the next file to remove, `None` at the end.
    pub fn next(&mut self) -> (r: Option<usize>)
        requires
            old(self)@.wf(),
        ensures
            (final(self)@, r) == clean_next(old(self)@),
            final(self)@.wf(),
    {
        if self.over || self.looked_at >= self.files.len() {
            self.over = true;
            return None;
        }
        let file = self.files[self.looked_at];
        if file.0 > self.cut_off || (file.0 == self.cut_off && file.1 > 0) || self.need_free == 0 {
            self.new_oldest = file.0;
            self.over = true;
            return None;
        }
        self.looked_at = self.looked_at + 1;
        Some(file.2)
    }

    /// Takes note of a file that was removed.
    pub fn removed(&mut self, size: u64)
        ensures
            final(self)@ == (CleanView { need: need_without(old(self)@.need, size), ..old(self)@ }),
    {
        self.need_free = self.need_free.saturating_sub(size);
    }

    /// How much must still go.
    pub fn need_free(&self) -> (r: u64)
        ensures
            r == self@.need,
    {
        self.need_free
    }

    /// The age of the range after the cleaning.
    pub fn new_oldest(&self) -> (r: i64)
        ensures
            r == self@.new_oldest,
    {
        self.new_oldest
    }
}

/// Cleaning removes only while something must go, and nothing newer than a day after the oldest
/// file.
pub proof fn cleaning_spares_new_files(v: CleanView)
    requires
        v.wf(),
    ensures
        clean_next(v).1 is Some ==> v.need > 0 && not_before(
            v.cut_off,
            0,
            v.files[v.looked_at as int].0 as int,
            v.files[v.looked_at as int].1 as int,
        ),
{
}

/// Cleaning removes the oldest files first: no file that is still to be looked at is older than the
/// one that is removed.
pub proof fn cleaning_takes_oldest_first(v: CleanView, i: int)
    requires
        v.wf(),
        clean_next(v).1 is Some,
        v.looked_at <= i < v.files.len(),
    ensures
        not_before(
            v.files[i].0 as int,
            v.files[i].1 as int,
            v.files[v.looked_at as int].0 as int,
            v.files[v.looked_at as int].1 as int,
        ),
{
    assert(aged_le(v.files[v.looked_at as int], v.files[i]));
}

/// A cleaning that ends before the last file leaves no file that is older than the age it gives the
/// range.
pub proof fn cleaned_range_is_no_older(v: CleanView, i: int)
    requires
        v.wf(),
        !v.over,
        clean_next(v).1 is None,
        v.looked_at <= i < v.files.len(),
    ensures
        clean_next(v).0.new_oldest <= v.files[i].0,
{
    assert(aged_le(v.files[v.looked_at as int], v.files[i]));
}

/// Cleaning ends only where nothing must go any more, where the rest is newer than a day after the
/// oldest file, or where there is no rest.
pub proof fn cleaning_goes_on_while_it_must(v: CleanView)
    requires
        v.wf(),
        !v.over,
        clean_next(v).1 is None,
    ensures
        v.need == 0 || v.looked_at == v.files.len() || (forall|i: int|
            v.looked_at <= i < v.files.len() ==> !not_before(
                v.cut_off,
                0,
                (#[trigger] v.files[i]).0 as int,
                v.files[i].1 as int,
            )),
{
    if v.need != 0 && v.looked_at < v.files.len() {
        assert forall|i: int| v.looked_at <= i < v.files.len() implies !not_before(
            v.cut_off,
            0,
            (#[trigger] v.files[i]).0 as int,
            v.files[i].1 as int,
        ) by {
            assert(aged_le(v.files[v.looked_at as int], v.files[i]));
        }
    }
}

/// The cleaning of a range ends: each file is looked at once.
pub proof fn cleaning_ends(v: CleanView)
    requires
        v.wf(),
    ensures
        clean_next(v).1 is Some ==> clean_next(v).0.files.len() - clean_next(v).0.looked_at
            == v.files.len() - v.looked_at - 1,
        clean_next(v).1 is None ==> clean_next(v).0.over,
{
}

/// A pass after some of its files were looked at, each with its size if it was removed.
pub open spec fn pass_after(v: CleanView, sizes: Seq<Option<u64>>) -> CleanView
    decreases sizes.len(),
{
    if sizes.len() == 0 {
        v
    } else {
        let next = clean_next(pass_after(v, sizes.drop_last())).0;
        match sizes.last() {
            Some(size) => CleanView { need: need_without(next.need, size), ..next },
            None => next,
        }
    }
}

/// Whether a pass gave out a file for each of the sizes.
pub open spec fn pass_goes(v: CleanView, sizes: Seq<Option<u64>>) -> bool {
    forall|j: int| 0 <= j < sizes.len() ==> clean_next(#[trigger] pass_after(v, sizes.take(j))).1 is Some
}

/// The sizes of the files that were removed, together.
pub open spec fn removed_size(sizes: Seq<Option<u64>>) -> int
    decreases sizes.len(),
{
    if sizes.len() == 0 {
        0
    } else {
        removed_size(sizes.drop_last()) + match sizes.last() {
            Some(size) => size as int,
            None => 0,
        }
    }
}

/// A pass as it started, and what became of the files that it gave out.
pub struct PassView {
    pub start: CleanView,
    pub sizes: Seq<Option<u64>>,
}

/// What must still go after some passes.
pub open spec fn need_after(need: u64, passes: Seq<PassView>) -> u64 {
    if passes.len() == 0 {
        need
    } else {
        pass_after(passes.last().start, passes.last().sizes).need
    }
}

/// Whether each pass starts with what the passes before it have left.
pub open spec fn cleaning(need: u64, passes: Seq<PassView>) -> bool {
    forall|i: int|
        0 <= i < passes.len() ==> passes[i].start.need == need_after(need, #[trigger] passes.take(i)) && pass_goes(
            passes[i].start,
            passes[i].sizes,
        )
}

/// The sizes of the files that all passes removed, together.
pub open spec fn all_removed(passes: Seq<PassView>) -> int
    decreases passes.len(),
{
    if passes.len() == 0 {
        0
    } else {
        all_removed(passes.drop_last()) + removed_size(passes.last().sizes)
    }
}

/// What is left of a need after some bytes have gone.
pub open spec fn rest_of(need: int, gone: int) -> int {
    if need > gone {
        need - gone
    } else {
        0
    }
}

proof fn lemma_pass_need(v: CleanView, sizes: Seq<Option<u64>>)
    ensures
        pass_after(v, sizes).need == rest_of(v.need as int, removed_size(sizes)),
        removed_size(sizes) >= 0,
    decreases sizes.len(),
{
    if sizes.len() > 0 {
        lemma_pass_need(v, sizes.drop_last());
    }
}

proof fn lemma_need_after(need: u64, passes: Seq<PassView>)
    requires
        cleaning(need, passes),
    ensures
        need_after(need, passes) == rest_of(need as int, all_removed(passes)),
        all_removed(passes) >= 0,
    decreases passes.len(),
{
    if passes.len() > 0 {
        let before = passes.drop_last();
        let last = passes.last();
        assert(passes.take(passes.len() - 1) =~= before);
        assert forall|i: int| 0 <= i < before.len() implies before[i].start.need == need_after(
            need,
            #[trigger] before.take(i),
        ) && pass_goes(before[i].start, before[i].sizes) by {
            assert(before[i] == passes[i]);
            assert(before.take(i) =~= passes.take(i));
        }
        lemma_need_after(need, before);
        assert(passes[passes.len() - 1] == last);
        lemma_pass_need(last.start, last.sizes);
    }
}

proof fn lemma_first_passes(need: u64, passes: Seq<PassView>, i: int)
    requires
        cleaning(need, passes),
        0 <= i <= passes.len(),
    ensures
        cleaning(need, passes.take(i)),
{
    let before = passes.take(i);
    assert forall|k: int| 0 <= k < before.len() implies before[k].start.need == need_after(
        need,
        #[trigger] before.take(k),
    ) && pass_goes(before[k].start, before[k].sizes) by {
        assert(before[k] == passes[k]);
        assert(before.take(k) =~= passes.take(k));
    }
}

/// Cleaning over all its passes: nothing must go any more exactly where the removed files are large
/// enough together, and otherwise what they are short of must still go.
pub proof fn cleaning_removes_what_it_must(need: u64, passes: Seq<PassView>)
    requires
        cleaning(need, passes),
    ensures
        need_after(need, passes) == rest_of(need as int, all_removed(passes)),
        need_after(need, passes) == 0 <==> all_removed(passes) >= need,
{
    lemma_need_after(need, passes);
}

/// Cleaning over all its passes: a file is removed only while those that were removed before it, in its
/// own pass and in all the earlier ones, are too small together. So without the last one too little
/// would have gone.
pub proof fn cleaning_removes_no_more(need: u64, passes: Seq<PassView>, i: int, j: int)
    requires
        cleaning(need, passes),
        0 <= i < passes.len(),
        0 <= j < passes[i].sizes.len(),
    ensures
        all_removed(passes.take(i)) + removed_size(passes[i].sizes.take(j)) < need,
{
    let pass = passes[i];
    lemma_first_passes(need, passes, i);
    lemma_need_after(need, passes.take(i));
    lemma_pass_need(pass.start, pass.sizes.take(j));
    assert(pass_goes(pass.start, pass.sizes));
    let v = pass_after(pass.start, pass.sizes.take(j));
    assert(clean_next(v).1 is Some);
    assert(v.need > 0);
}

/// A scan keeps a file only if its length on the disk is the size that its name says: a file of any other
/// length, shorter or longer, is removed, whether the content is to be checked or not. What is kept is
/// checked where that is asked for, and counted otherwise; what is no file of the cache is left alone.
pub proof fn scan_removes_wrong_lengths(
    scan: &CacheScan,
    name: Option<&str>,
    is_dir: bool,
    len: u64,
    id: crate::cache_file::FileId,
    r: ScanEntry,
)
    requires
        call_ensures(CacheScan::entry, (scan, name, is_dir, len), r),
    ensures
        is_dir <==> r is Directory,
        !is_dir && (name matches Some(text) && text@ == id.name()) && id.valid() ==> {
            &&& r is Remove <==> len != id.size
            &&& r is Verify <==> len == id.size && scan@.verify
            &&& r is Count <==> len == id.size && !scan@.verify
        },
        r matches ScanEntry::Verify(info) ==> info@.size == len && scan@.verify && (name matches Some(text)
            && crate::cache_file::parse_file_id(text@) == Some(info@)),
        r matches ScanEntry::Count(info) ==> info@.size == len && !scan@.verify && (name matches Some(text)
            && crate::cache_file::parse_file_id(text@) == Some(info@)),
        r is Remove ==> (name matches Some(text) && crate::cache_file::parse_file_id(text@) is Some),
        name is None ==> r is Directory || r is Unknown,
{
    if id.valid() {
        crate::cache_file::name_reads_back(id);
    }
}

/// Whether two texts are the same letter for letter, but for the case of ASCII letters.
pub open spec fn same_letters(a: Seq<char>, b: Seq<char>) -> bool {
    a.len() == b.len() && forall|i: int|
        #![trigger a[i]]
        #![trigger b[i]]
        0 <= i < a.len() ==> a[i] == b[i] || ('A' <= a[i] <= 'Z' && b[i] as int == a[i] as int + 32) || ('A'
            <= b[i] <= 'Z' && a[i] as int == b[i] as int + 32)
}

/// A directory is kept exactly where its two names together are one of the client's ranges, in letters of
/// either case; only what is kept counts.
pub proof fn directories_of_ranges_are_kept(scan: &mut CacheScan, first: &str, second: &str, r: bool)
    requires
        call_ensures(CacheScan::directory, (scan, first, second), r),
        old(scan)@.total < usize::MAX,
    ensures
        r <==> exists|i: int|
            0 <= i < old(scan)@.ranges.len() && same_letters(
                first@ + second@,
                #[trigger] old(scan)@.ranges[i],
            ),
        final(scan)@.total == old(scan)@.total + if r {
            1int
        } else {
            0
        },
        final(scan)@.ranges == old(scan)@.ranges,
{
    let name = first@ + second@;
    let ranges = old(scan)@.ranges;
    assert forall|i: int| 0 <= i < ranges.len() implies (crate::text::ascii_lower_seq(name)
        == crate::text::ascii_lower_seq(#[trigger] ranges[i])) == same_letters(name, ranges[i]) by {
        lemma_same_letters(name, ranges[i]);
    }
}

proof fn lemma_same_letters(a: Seq<char>, b: Seq<char>)
    ensures
        (crate::text::ascii_lower_seq(a) == crate::text::ascii_lower_seq(b)) == same_letters(a, b),
{
    let x = crate::text::ascii_lower_seq(a);
    let y = crate::text::ascii_lower_seq(b);
    if x == y {
        assert(x.len() == a.len() && y.len() == b.len());
        assert forall|i: int|
            #![trigger a[i]]
            #![trigger b[i]]
            0 <= i < a.len() implies a[i] == b[i] || ('A' <= a[i] <= 'Z' && b[i] as int == a[i] as int + 32) || (
        'A' <= b[i] <= 'Z' && a[i] as int == b[i] as int + 32) by {
            assert(x[i] == y[i]);
        }
    } else if same_letters(a, b) {
        assert(x =~= y);
    }
}

/// The directory in which a file of a range lies is kept by a client that has that range.
pub proof fn own_files_are_kept(v: crate::cache_file::FileId, ranges: Seq<Seq<char>>)
    requires
        v.valid(),
        ranges.contains(v.range()),
    ensures
        range_kept(
            crate::digest::hex_seq(v.hash).subrange(0, 2),
            crate::digest::hex_seq(v.hash).subrange(2, 4),
            ranges,
        ),
{
    crate::cache_file::path_follows_range(v);
    let i = ranges.index_of(v.range());
    assert(ranges[i] == v.range());
}

/// A cached file is missing where there is none, where it is not a regular file, or where its length is
/// another than its name says; else it is served. It is checked then if it was not used for a week, and only
/// then.
pub proof fn old_files_are_checked(
    info: &CacheFileInfo,
    stat: Option<FileStat>,
    now: i64,
    nanos: u32,
    r: FilePlan,
)
    requires
        call_ensures(CacheManager::get_file, (info, stat, now, nanos), r),
        now >= i64::MIN + 604800,
        nanos < 1_000_000_000,
        stat matches Some(s) ==> s.mtime_nanos < 1_000_000_000,
    ensures
        r == FilePlan::Missing <==> !(stat matches Some(s) && s.is_file && s.len == info@.size),
        r == FilePlan::ServeAndCheck ==> (stat matches Some(s) && s.mtime * 1_000_000_000 + s.mtime_nanos < (now
            - 604800) * 1_000_000_000 + nanos),
        r == FilePlan::Serve ==> (stat matches Some(s) && s.mtime * 1_000_000_000 + s.mtime_nanos >= (now
            - 604800) * 1_000_000_000 + nanos),
{
}

/// A file that is put into the cache adds its size to its range and to the total, and one to the files; no
/// other range changes, and its range becomes no older. A range that was not known counts from now on.
pub proof fn import_counts_one_file(m: &mut CacheManager, info: &CacheFileInfo, size: u64, now: i64)
    requires
        call_ensures(CacheManager::import_cache, (m, info, size, now), ()),
        has_room(old(m)@.states, info@.key() as u16, size),
        info@.valid(),
    ensures
        total_size(final(m)@.states) == total_size(old(m)@.states) + size,
        total_count(final(m)@.states) == total_count(old(m)@.states) + 1,
        forall|k: u16|
            k != info@.key() ==> (#[trigger] final(m)@.states.contains_key(k) <==> old(m)@.states.contains_key(k))
                && (old(m)@.states.contains_key(k) ==> final(m)@.states[k] == old(m)@.states[k]),
        final(m)@.states.contains_key(info@.key() as u16),
        final(m)@.states[info@.key() as u16].oldest == if old(m)@.states.contains_key(info@.key() as u16) {
            old(m)@.states[info@.key() as u16].oldest
        } else {
            now
        },
        final(m)@.limit == old(m)@.limit,
{
    crate::cache_file::range_is_key(info@);
    total_follows_new_file(old(m)@.states, info@.key() as u16, size, now);
}

/// A file that a scan counts adds its size to the total and one to the files, and makes its range as old as
/// it is where it is older; no other range changes.
pub proof fn scan_counts_one_file(m: &mut CacheManager, info: &CacheFileInfo, size: u64, mtime: i64, now: i64)
    requires
        call_ensures(CacheManager::scan_file, (m, info, size, mtime, now), ()),
        has_room(old(m)@.states, info@.key() as u16, size),
        info@.valid(),
    ensures
        total_size(final(m)@.states) == total_size(old(m)@.states) + size,
        total_count(final(m)@.states) == total_count(old(m)@.states) + 1,
        forall|k: u16|
            k != info@.key() ==> (#[trigger] final(m)@.states.contains_key(k) <==> old(m)@.states.contains_key(k))
                && (old(m)@.states.contains_key(k) ==> final(m)@.states[k] == old(m)@.states[k]),
        ({
            let before = if old(m)@.states.contains_key(info@.key() as u16) {
                old(m)@.states[info@.key() as u16].oldest
            } else {
                now
            };
            let after = final(m)@.states[info@.key() as u16].oldest;
            after <= mtime && after <= before && (after == mtime || after == before)
        }),
{
    crate::cache_file::range_is_key(info@);
    let key = info@.key() as u16;
    let state = state_or_new(old(m)@.states, key, now);
    lemma_below_insert(old(m)@.states, key, with_scanned(state, size as int, mtime), 0x1_0000);
}

/// A file that is removed takes its size from the total and one from the files, where its range is known; no
/// other range changes.
pub proof fn removal_counts_one_file(m: &mut CacheManager, info: &CacheFileInfo, size: u64)
    requires
        call_ensures(CacheManager::remove_cache, (m, info, size), ()),
        info@.valid(),
        old(m)@.states.contains_key(info@.key() as u16),
        old(m)@.states[info@.key() as u16].file_count > 0,
        old(m)@.states[info@.key() as u16].size >= size,
    ensures
        total_size(final(m)@.states) == total_size(old(m)@.states) - size,
        total_count(final(m)@.states) == total_count(old(m)@.states) - 1,
        forall|k: u16|
            k != info@.key() && old(m)@.states.contains_key(k) ==> #[trigger] final(m)@.states[k] == old(
                m,
            )@.states[k],
        final(m)@.states[info@.key() as u16].oldest == old(m)@.states[info@.key() as u16].oldest,
{
    crate::cache_file::range_is_key(info@);
    let key = info@.key() as u16;
    lemma_below_insert(
        old(m)@.states,
        key,
        old(m)@.states[key].without_file(size as int),
        0x1_0000,
    );
}

/// After a scan each range is as old as one of its files, or as it was said to be before.
pub proof fn scan_tells_a_real_age(states: Map<u16, CacheState>, files: Seq<FoundFile>, now: i64, key: u16)
    requires
        scanned(states, files, now).contains_key(key),
    ensures
        scanned(states, files, now)[key].oldest == state_or_new(states, key, now).oldest || exists|i: int|
            0 <= i < files.len() && (#[trigger] files[i]).key == key && files[i].mtime == scanned(
                states,
                files,
                now,
            )[key].oldest,
        scanned(states, files, now)[key].oldest <= state_or_new(states, key, now).oldest,
    decreases files.len(),
{
    if files.len() > 0 {
        let before = scanned(states, files.drop_last(), now);
        let after = scanned(states, files, now);
        let file = files.last();
        if before.contains_key(key) {
            scan_tells_a_real_age(states, files.drop_last(), now, key);
        } else {
            lemma_scan_keeps_ranges(states, files.drop_last(), now, key);
        }
        if file.key == key && after[key].oldest == file.mtime {
            assert(files[files.len() - 1].key == key);
        } else if before.contains_key(key) && before[key].oldest != state_or_new(states, key, now).oldest {
            let i = choose|i: int|
                0 <= i < files.drop_last().len() && (#[trigger] files.drop_last()[i]).key == key
                    && files.drop_last()[i].mtime == before[key].oldest;
            assert(files[i] == files.drop_last()[i]);
        }
    }
}

proof fn lemma_scan_keeps_ranges(states: Map<u16, CacheState>, files: Seq<FoundFile>, now: i64, key: u16)
    ensures
        states.contains_key(key) ==> scanned(states, files, now).contains_key(key),
    decreases files.len(),
{
    if files.len() > 0 {
        lemma_scan_keeps_ranges(states, files.drop_last(), now, key);
    }
}

/// What must go is what the cache holds over its limit and what the disk lacks to a hundred megabytes of
/// room, both together: nothing exactly where the cache is within its limit and the disk has that room.
pub proof fn need_is_excess_and_lack(m: &CacheManager, free: u64, r: Option<u64>, without: Option<u64>)
    requires
        call_ensures(CacheManager::check_cache_usage, (m, Some(free)), r),
        call_ensures(CacheManager::check_cache_usage, (m, None), without),
    ensures
        r matches Some(need) ==> {
            &&& need == 0 <==> total_size(m@.states) <= m@.limit && free >= 100 * 1024 * 1024
            &&& total_size(m@.states) - need <= m@.limit
            &&& free + need >= 100 * 1024 * 1024
            &&& without matches Some(excess) ==> need - excess == if free < 100 * 1024 * 1024 {
                100 * 1024 * 1024 - free
            } else {
                0
            }
        },
        without matches Some(excess) ==> excess == if total_size(m@.states) > m@.limit {
            total_size(m@.states) - m@.limit
        } else {
            0
        },
{
}

/// The limit of the cache is the one of the settings, whatever it was; a client that is told a new limit
/// cleans by it.
pub proof fn cache_follows_limit(m: &mut CacheManager, settings: &Settings, start: CacheManager)
    requires
        call_ensures(CacheManager::update_settings, (m, settings), ()),
        call_ensures(CacheManager::new, (settings,), start),
    ensures
        final(m)@.limit == settings.limit(),
        final(m)@.states == old(m)@.states,
        start@.limit == settings.limit(),
        total_size(start@.states) == 0,
{
    lemma_empty_below(0x1_0000);
}

/// Room is made in a range of which no other is older, in the directories where its files lie; and only where
/// something must go.
pub proof fn oldest_range_is_cleaned(
    m: &CacheManager,
    need: u64,
    target: CleanTarget,
    info: &CacheFileInfo,
    path: crate::cache_file::CachePath,
    other: u16,
)
    requires
        call_ensures(CacheManager::clean_target, (m, need), Some(target)),
        call_ensures(CacheFileInfo::to_path, (info,), path),
        info@.valid(),
        info@.key() == target.key,
        m@.states.contains_key(other),
    ensures
        need > 0,
        path.first@ == target.first@ && path.second@ == target.second@,
        m@.states.contains_key(target.key),
        m@.states[target.key].oldest <= m@.states[other].oldest,
        target.oldest == m@.states[target.key].oldest,
{
    crate::cache_file::range_is_key(info@);
    crate::cache_file::path_follows_range(info@);
    let a = path.first@ + path.second@;
    assert(a == target.first@ + target.second@);
    assert(path.first@ =~= a.subrange(0, 2));
    assert(path.second@ =~= a.subrange(2, a.len() as int));
    assert(target.first@ =~= a.subrange(0, 2));
    assert(target.second@ =~= a.subrange(2, a.len() as int));
}

/// The cleaning of a range removes a file by its own place in the list that was read: the oldest one that is
/// left. It spares what is newer than a day after the range's age, and all that follow.
pub proof fn oldest_file_is_removed(pass: &mut CleanPass, r: Option<usize>, i: int)
    requires
        call_ensures(CleanPass::next, (pass,), r),
        old(pass)@.wf(),
        !old(pass)@.over,
        old(pass)@.looked_at <= i < old(pass)@.files.len(),
    ensures
        r matches Some(place) ==> {
            let file = old(pass)@.files[old(pass)@.looked_at as int];
            &&& place == file.2
            &&& file.0 <= old(pass)@.files[i].0
            &&& old(pass)@.need > 0
            &&& file.0 <= old(pass)@.cut_off
            &&& final(pass)@.looked_at == old(pass)@.looked_at + 1
        },
        r is None ==> old(pass)@.need == 0 || old(pass)@.files[i].0 >= old(pass)@.cut_off,
        final(pass)@.files == old(pass)@.files,
        final(pass)@.need == old(pass)@.need,
        final(pass)@.new_oldest == old(pass)@.new_oldest || final(pass)@.new_oldest == old(pass)@.files[old(
            pass,
        )@.looked_at as int].0,
{
    assert(aged_le(old(pass)@.files[old(pass)@.looked_at as int], old(pass)@.files[i]));
}

/// The cleaning of a range goes up to a day after its age; without a file the range is as old as now, and else
/// at first as old as its newest file.
pub proof fn cleaning_goes_up_to_a_day(files: Vec<AgedFile>, oldest: i64, need: u64, now: i64, r: CleanPass, i: int)
    requires
        call_ensures(CleanPass::new, (files, oldest, need, now), r),
        0 <= i < files@.len(),
    ensures
        r@.cut_off == oldest + 24 * 60 * 60,
        r@.need == need,
        r@.files.contains(files@[i]),
        r@.new_oldest >= files@[i].0,
        exists|j: int| 0 <= j < files@.len() && (#[trigger] files@[j]).0 == r@.new_oldest,
{
    files@.to_multiset_ensures();
    r@.files.to_multiset_ensures();
    assert(files@.to_multiset().count(files@[i]) > 0);
    assert(r@.files.contains(files@[i]));
    let k = r@.files.index_of(files@[i]);
    assert(aged_le(r@.files[k], r@.files[r@.files.len() - 1]));
    let last = r@.files.last();
    assert(r@.files.to_multiset().count(last) > 0) by {
        assert(r@.files.contains(last)) by {
            assert(r@.files[r@.files.len() - 1] == last);
        }
    }
    assert(files@.contains(last));
    let j = files@.index_of(last);
    assert(files@[j].0 == r@.new_oldest);
}

/// A range without files is as old as now after its cleaning, and a file that was removed lessens what must go
/// by its size.
pub proof fn removal_lessens_need(
    files: Vec<AgedFile>,
    oldest: i64,
    need: u64,
    now: i64,
    r: CleanPass,
    pass: &mut CleanPass,
    size: u64,
)
    requires
        call_ensures(CleanPass::new, (files, oldest, need, now), r),
        files@.len() == 0,
        call_ensures(CleanPass::removed, (pass, size), ()),
    ensures
        r@.new_oldest == now,
        final(pass)@.need + size >= old(pass)@.need,
        final(pass)@.need <= old(pass)@.need,
        size <= old(pass)@.need ==> final(pass)@.need + size == old(pass)@.need,
        final(pass)@.looked_at == old(pass)@.looked_at,
        final(pass)@.files == old(pass)@.files,
{
}

/// A cache is gone through in the foreground where there is hardly any room, or where it must be checked and
/// the user does not mind; more files are looked at at once then.
pub proof fn scan_runs_where_it_must(verify: bool, background: bool, free: u64, r: ScanPlan, s: ScanPlan)
    requires
        call_ensures(scan_plan, (verify, background, Some(free)), r),
        call_ensures(scan_plan, (verify, background, None), s),
    ensures
        r.foreground <==> free < 100 * 1024 * 1024 || (verify && !background),
        s.foreground <==> verify && !background,
        r.low_disk <==> free < 100 * 1024 * 1024,
        !s.low_disk,
        r.verify == verify && s.verify == verify,
        r.foreground ==> r.parallelism == 16,
        !r.foreground ==> r.parallelism == 4,
{
}

/// What a scan has gone through is told every hundred directories, and at the end.
pub proof fn scan_tells_progress(scan: &mut CacheScan, told: bool)
    requires
        call_ensures(CacheScan::range_done, (scan,), told),
    ensures
        final(scan)@.counter == old(scan)@.counter + 1,
        told <==> final(scan)@.counter == final(scan)@.total || final(scan)@.counter % 100 == 0,
        final(scan)@.total == old(scan)@.total && final(scan)@.ranges == old(scan)@.ranges,
{
}

/// A cache is lost where a client with more than twenty ranges has no directory of any of them. A client that
/// has found one has not lost it.
pub proof fn cache_is_lost_without_directories(scan: &mut CacheScan, told: bool, before: bool, after: bool)
    requires
        call_ensures(CacheScan::cache_lost, (old(scan),), before),
        call_ensures(CacheScan::range_done, (scan,), told),
        call_ensures(CacheScan::cache_lost, (final(scan),), after),
    ensures
        before <==> old(scan)@.counter == 0 && old(scan)@.ranges.len() >= 21,
        !after,
{
}

/// A cached file passes its check exactly where the digest of all that was read of it is the one of its name.
pub proof fn check_compares_all_bytes(
    start: CacheCheck,
    a: &mut CacheCheck,
    b: &mut CacheCheck,
    x: &[u8],
    y: &[u8],
    info: &CacheFileInfo,
    r: bool,
)
    requires
        call_ensures(CacheCheck::new, (), start),
        *old(a) == start,
        call_ensures(CacheCheck::update, (a, x), ()),
        *old(b) == *final(a),
        call_ensures(CacheCheck::update, (b, y), ()),
        call_ensures(CacheCheck::intact, (*final(b), info), r),
    ensures
        r <==> crate::digest::sha1_digest(x@ + y@) == info@.hash,
{
    assert(Seq::<u8>::empty() + x@ + y@ =~= x@ + y@);
}

/// A file that is checked while it is served is read until all its bytes came, and is corrupt exactly where
/// their digest is another than the one of its name.
pub proof fn served_file_is_checked(
    size: u64,
    start: CheckedRead,
    a: &mut CheckedRead,
    data: &[u8],
    info: &CacheFileInfo,
    more: bool,
    corrupt: bool,
)
    requires
        call_ensures(CheckedRead::new, (size,), start),
        *old(a) == start,
        call_ensures(CheckedRead::update, (a, data), ()),
        call_ensures(CheckedRead::wants_more, (final(a),), more),
        call_ensures(CheckedRead::corrupt, (*final(a), info), corrupt),
    ensures
        more <==> data@.len() < size,
        corrupt <==> crate::digest::sha1_digest(data@) != info@.hash,
{
    assert(Seq::<u8>::empty() + data@ =~= data@);
}

/// A cleaning that is over stays over: it names no file any more.
pub proof fn cleaning_stays_over(a: &mut CleanPass, b: &mut CleanPass, x: Option<usize>, y: Option<usize>)
    requires
        old(a)@.wf(),
        call_ensures(CleanPass::next, (a,), x),
        *old(b) == *final(a),
        call_ensures(CleanPass::next, (b,), y),
    ensures
        x is None ==> y is None,
        old(a)@.looked_at == old(a)@.files.len() ==> x is None,
        old(a)@.over ==> x is None,
        x is Some ==> final(a)@.looked_at == old(a)@.looked_at + 1,
{
}

/// What the cache holds is told whenever it can be told in sixty-four bits, and so is what must go.
pub proof fn sums_are_told(cache: &CacheManager, free: Option<u64>, r: Option<(u64, u64)>, need: Option<u64>)
    requires
        call_ensures(CacheManager::totals, (cache,), r),
        call_ensures(CacheManager::check_cache_usage, (cache, free), need),
    ensures
        total_size(cache@.states) <= 0xFFFF_FFFF_FFFF_FFFF && total_count(cache@.states) <= 0xFFFF_FFFF_FFFF_FFFF
            ==> r is Some,
        r matches Some(found) ==> found.0 == total_size(cache@.states) && found.1 == total_count(cache@.states),
        total_size(cache@.states) <= 0xFFFF_FFFF_FFFF_FFFF && space_needed(cache@, free) <= 0xFFFF_FFFF_FFFF_FFFF
            ==> need is Some,
{
}

/// The oldest range is one that is known, and none is older.
pub proof fn oldest_range_is_known(m: &CacheManager, r: Option<(u16, i64)>, other: u16, s: Option<CacheState>)
    requires
        call_ensures(CacheManager::oldest_range, (m,), r),
        call_ensures(CacheManager::state, (m, other), s),
    ensures
        s is Some <==> m@.states.contains_key(other),
        s matches Some(state) ==> state == m@.states[other],
        r matches Some(found) ==> m@.states.contains_key(found.0) && m@.states[found.0].oldest == found.1,
        r matches Some(found) ==> (s matches Some(state) ==> found.1 <= state.oldest),
{
}

/// A range that is told its age has it from then on, with its files and bytes as before; no other range
/// changes, and an unknown one stays unknown.
pub proof fn age_of_range_is_set(m: &mut CacheManager, key: u16, oldest: i64, other: u16)
    requires
        call_ensures(CacheManager::set_oldest, (m, key, oldest), ()),
    ensures
        old(m)@.states.contains_key(key) ==> final(m)@.states.contains_key(key) && final(m)@.states[key].oldest
            == oldest && final(m)@.states[key].size == old(m)@.states[key].size
            && final(m)@.states[key].file_count == old(m)@.states[key].file_count,
        final(m)@.states.contains_key(other) <==> old(m)@.states.contains_key(other),
        other != key && old(m)@.states.contains_key(other) ==> final(m)@.states[other] == old(m)@.states[other],
        final(m)@.limit == old(m)@.limit,
{
}

/// A leftover of a download is a file whose name begins with the ten characters that mark it.
pub proof fn leftover_is_told_by_name(name: &str, is_file: bool, r: bool)
    requires
        call_ensures(is_old_temp_file, (name, is_file), r),
    ensures
        r <==> is_file && name@.len() >= 10 && name@.take(10) == seq![
            'p',
            'r',
            'o',
            'x',
            'y',
            'f',
            'i',
            'l',
            'e',
            '_',
        ],
{
    reveal_strlit("proxyfile_");
    let mark = seq!['p', 'r', 'o', 'x', 'y', 'f', 'i', 'l', 'e', '_'];
    assert("proxyfile_"@ =~= mark);
    if name@.len() >= 10 {
        assert(name@.take(10) =~= name@.subrange(0, 10));
    }
}

/// Files are sorted by their seconds first, then by their nanoseconds; of two files one comes before the other,
/// and a file that comes before a second one comes before all that the second one comes before.
pub proof fn older_file_comes_first(a: AgedFile, b: AgedFile, c: AgedFile)
    ensures
        a.0 < b.0 ==> aged_le(a, b) && !aged_le(b, a),
        a.0 == b.0 && a.1 < b.1 ==> aged_le(a, b) && !aged_le(b, a),
        aged_le(a, b) || aged_le(b, a),
        aged_le(a, b) && aged_le(b, a) ==> a == b,
        aged_le(a, b) && aged_le(b, c) ==> aged_le(a, c),
{
}

} // verus!
