//! The life of the client: its login, its duties, and what it does when.
use vstd::prelude::*;
use vstd::string::*;

use crate::cache_file::CacheFileInfo;
use crate::text::{parse_i64, push_i64, split};

verus! {

/// What the running client can be told to do.
#[derive(Clone, Copy, PartialEq, Eq, Structural, Debug)]
pub enum Command {
    ReloadCert,
    RefreshSettings,
    StartDownloader,
    Overload,
}

/// The number and the secret that a line holds: the parts before and after the first hyphen. What
/// follows a second hyphen is ignored.
pub open spec fn credential_of(line: Seq<char>) -> Option<(int, Seq<char>)> {
    let parts = crate::text::split_seq(line, '-');
    match crate::text::parse_signed(parts[0], i32::MIN as int, i32::MAX as int) {
        Some(id) if parts.len() > 1 => Some((id, parts[1])),
        _ => None,
    }
}

/// Reads the number and the secret from the first line of a file, if it has one.
pub fn read_credential(line: Option<&str>) -> (r: Option<(i32, String)>)
    ensures
        match line {
            Some(text) => match r {
                Some((id, key)) => credential_of(text@) == Some((id as int, key@)),
                None => credential_of(text@) is None,
            },
            None => r is None,
        },
{
    let line = match line {
        Some(line) => line,
        None => {
            return None;
        },
    };
    let mut parts = split(line, '-');
    let ghost pieces = crate::text::split_seq(line@, '-');
    proof {
        crate::text::lemma_split_nonempty(line@, '-');
        assert(crate::text::texts(parts@).len() == parts@.len());
        assert(pieces[0] == parts@[0]@);
        assert(pieces.len() > 1 ==> pieces[1] == parts@[1]@);
    }
    match parse_i64(parts[0].as_str(), i32::MIN as i64, i32::MAX as i64) {
        Some(id) => {
            if parts.len() > 1 {
                Some((id as i32, parts.swap_remove(1)))
            } else {
                None
            }
        },
        None => None,
    }
}

/// The line that keeps the number and the secret.
pub fn credential_line(id: i32, key: &str) -> (r: String)
    ensures
        r@ == crate::text::decimal_int(id as int) + "-"@ + key@,
{
    let mut out = String::new();
    push_i64(&mut out, id as i64);
    out.append("-");
    out.append(key);
    assert(out@ =~= crate::text::decimal_int(id as int) + "-"@ + key@);
    out
}

/// What a secret looks like.
pub const KEY_PATTERN: &'static str = "^[a-zA-Z0-9]{20}$";

/// Whether a text is twenty letters and digits.
pub open spec fn is_client_key(s: Seq<char>) -> bool {
    s.len() == 20 && forall|i: int|
        0 <= i < s.len() ==> {
            let c = #[trigger] s[i];
            'a' <= c <= 'z' || 'A' <= c <= 'Z' || '0' <= c <= '9'
        }
}

/// `regex_lite::Regex::is_match` with the pattern of a secret, which matches exactly the texts of
/// twenty letters and digits.
#[verifier::external_body]
fn pattern_is_match(pattern: &str, text: &str) -> (r: bool)
    requires
        pattern@ == KEY_PATTERN@,
    ensures
        r == is_client_key(text@),
{
    regex_lite::Regex::new(pattern).unwrap().is_match(text)
}

/// Whether a user has entered a secret.
pub fn valid_key(key: &str) -> (r: bool)
    ensures
        r == is_client_key(key@),
{
    pattern_is_match(KEY_PATTERN, key)
}

/// A number and a secret read back from the line that keeps them.
pub proof fn credential_reads_back(id: i32, key: Seq<char>)
    requires
        is_client_key(key),
        id >= 0,
    ensures
        credential_of(crate::text::decimal_int(id as int) + "-"@ + key) == Some((id as int, key)),
{
    reveal_strlit("-");
    let number = crate::text::decimal_int(id as int);
    crate::text::lemma_digits_of_decimal(id as nat);
    crate::text::lemma_parse_decimal_int(id as int, i32::MIN as int, i32::MAX as int);
    let parts = seq![number, key];
    assert forall|i: int| 0 <= i < parts.len() implies !(#[trigger] parts[i]).contains('-') by {
        if parts[i].contains('-') {
            let k = parts[i].index_of('-');
            assert(parts[i][k] == '-');
        }
    }
    crate::text::split_of_join(parts, '-');
    assert(parts.drop_last() =~= seq![number]);
    reveal_with_fuel(crate::text::join_seq, 3);
    assert(crate::text::join_seq(parts, seq!['-']) =~= number + "-"@ + key);
}

/// The port that is listened on: the user's, or the one that the server expects.
pub fn listen_port(user: Option<u16>, server: u16) -> (r: u16)
    ensures
        r == match user {
            Some(port) => port,
            None => server,
        },
{
    match user {
        Some(port) => port,
        None => server,
    }
}

/// Whether clients that come too often are kept out: unless the user does not want it, or does not
/// want addresses to matter at all.
pub fn watch_clients(disable_flood_control: bool, disable_ip_origin_check: bool) -> (r: bool)
    ensures
        r == !(disable_flood_control || disable_ip_origin_check),
{
    !(disable_flood_control || disable_ip_origin_check)
}

/// The files that a list of identifiers names, without what names no file.
pub open spec fn files_named(ids: Seq<Seq<char>>) -> Seq<crate::cache_file::FileId>
    decreases ids.len(),
{
    if ids.len() == 0 {
        Seq::empty()
    } else {
        let before = files_named(ids.drop_last());
        match crate::cache_file::parse_file_id(ids.last()) {
            Some(id) => before.push(id),
            None => before,
        }
    }
}

/// What is known of each file.
pub open spec fn file_ids(files: Seq<CacheFileInfo>) -> Seq<crate::cache_file::FileId> {
    files.map_values(|f: CacheFileInfo| f@)
}

/// The files that the server wants removed.
pub fn purge_list(list: &Vec<String>) -> (r: Vec<CacheFileInfo>)
    ensures
        file_ids(r@) == files_named(crate::text::texts(list@)),
{
    let mut out: Vec<CacheFileInfo> = Vec::new();
    let ghost ids = crate::text::texts(list@);
    for i in 0..list.len()
        invariant
            ids == crate::text::texts(list@),
            file_ids(out@) == files_named(ids.take(i as int)),
    {
        assert(ids.take(i + 1).drop_last() =~= ids.take(i as int));
        assert(ids.take(i + 1).last() == list@[i as int]@);
        match CacheFileInfo::from_file_id(list[i].as_str()) {
            Some(info) => {
                let ghost before = out@;
                out.push(info);
                assert(file_ids(out@) =~= file_ids(before).push(info@));
            },
            None => {},
        }
    }
    assert(ids.take(ids.len() as int) =~= ids);
    out
}

/// The seconds of which the removed files are asked for: at the start, and later.
pub const PURGE_AT_START: u64 = 259200;

pub const PURGE_LATER: u64 = 43200;

/// What is due when the client looks after its duties, every ten seconds.
#[derive(Clone, Copy, PartialEq, Eq, Structural, Debug)]
pub struct Duties {
    /// Tell the server that this client is alive.
    pub alive: bool,
    /// Ask the server which files are to be removed.
    pub purge: bool,
}

/// Counts how often the client looked after its duties.
#[derive(Debug)]
pub struct Schedule {
    counter: u32,
}

impl Schedule {
    /// How often the client looked after its duties.
    pub closed spec fn count(&self) -> u32 {
        self.counter
    }

    /// The client starts.
    pub fn new() -> (r: Schedule)
        ensures
            r.count() == 0,
    {
        Schedule { counter: 0 }
    }

    /// What is due now. The count starts over after its largest value.
    pub fn tick(&mut self) -> (r: Duties)
        ensures
            r.alive == (old(self).count() % 11 == 0),
            r.purge == (old(self).count() % 2160 == 2159),
            final(self).count() == if old(self).count() == u32::MAX {
                0
            } else {
                (old(self).count() + 1) as u32
            },
    {
        let alive = self.counter % 11 == 0;
        let purge = self.counter % 2160 == 2159;
        if self.counter == u32::MAX {
            self.counter = 0;
        } else {
            self.counter = self.counter + 1;
        }
        Duties { alive, purge }
    }
}

/// Half a minute, in nanoseconds.
pub const OVERLOAD_PAUSE: u64 = 30_000_000_000;

/// Tells the server of too many requests, but not too often.
#[derive(Debug)]
pub struct OverloadNotice {
    last: Option<u64>,
}

impl OverloadNotice {
    /// When the server was told last, in nanoseconds.
    pub closed spec fn told(&self) -> Option<u64> {
        self.last
    }

    /// The server was not told yet.
    pub fn new() -> (r: OverloadNotice)
        ensures
            r.told() is None,
    {
        OverloadNotice { last: None }
    }

    /// There are too many requests now, so long after the start: whether the server is told.
    pub fn overload(&mut self, now: u64) -> (r: bool)
        ensures
            r == match old(self).told() {
                Some(last) => now > last + OVERLOAD_PAUSE,
                None => now > 0,
            },
            final(self).told() == if r {
                Some(now)
            } else {
                old(self).told()
            },
    {
        let due = match self.last {
            Some(last) => now > last && now - last > OVERLOAD_PAUSE,
            None => now > 0,
        };
        if due {
            self.last = Some(now);
        }
        due
    }
}

/// The files to remove are those of the list in order: what a longer list names is what its two parts name,
/// one after the other; and one identifier names the file it says, or none.
pub proof fn list_names_its_parts(a: Seq<Seq<char>>, b: Seq<Seq<char>>, id: Seq<char>)
    ensures
        files_named(a + b) == files_named(a) + files_named(b),
        crate::cache_file::parse_file_id(id) matches Some(file) ==> files_named(seq![id]) == seq![file],
        crate::cache_file::parse_file_id(id) is None ==> files_named(seq![id]).len() == 0,
    decreases b.len(),
{
    assert(seq![id].drop_last() =~= Seq::empty());
    assert(files_named(Seq::<Seq<char>>::empty()) =~= Seq::empty());
    if crate::cache_file::parse_file_id(id) is Some {
        assert(files_named(seq![id]) =~= seq![crate::cache_file::parse_file_id(id)->0]);
    }
    if b.len() == 0 {
        assert(a + b =~= a);
        assert(files_named(a) + files_named(b) =~= files_named(a));
    } else {
        list_names_its_parts(a, b.drop_last(), id);
        assert((a + b).drop_last() =~= a + b.drop_last());
        assert(files_named(a + b) =~= files_named(a) + files_named(b));
    }
}

/// Every file of a list of names is removed, whatever else stands in the list.
pub proof fn listed_file_is_purged(list: &Vec<String>, r: Vec<CacheFileInfo>, i: int, id: crate::cache_file::FileId)
    requires
        call_ensures(purge_list, (list,), r),
        0 <= i < list@.len(),
        id.valid(),
        list@[i]@ == id.name(),
    ensures
        exists|k: int| 0 <= k < r@.len() && (#[trigger] r@[k])@ == id.stored(),
        r@.len() <= list@.len(),
{
    crate::cache_file::name_reads_back(id);
    let ids = crate::text::texts(list@);
    assert(ids[i] == list@[i]@);
    lemma_named(ids, i);
    let all = files_named(ids);
    let k = all.index_of(id.stored());
    assert(file_ids(r@)[k] == r@[k]@);
    assert(file_ids(r@).len() == r@.len());
}

proof fn lemma_named(ids: Seq<Seq<char>>, i: int)
    requires
        0 <= i < ids.len(),
        crate::cache_file::parse_file_id(ids[i]) is Some,
    ensures
        files_named(ids).contains(crate::cache_file::parse_file_id(ids[i])->0),
        files_named(ids).len() <= ids.len(),
    decreases ids.len(),
{
    let before = files_named(ids.drop_last());
    let file = crate::cache_file::parse_file_id(ids[i])->0;
    lemma_no_more_named(ids);
    if i == ids.len() - 1 {
        assert(files_named(ids)[before.len() as int] == file);
    } else {
        assert(ids.drop_last()[i] == ids[i]);
        lemma_named(ids.drop_last(), i);
        let k = before.index_of(file);
        assert(files_named(ids)[k] == file);
    }
}

proof fn lemma_no_more_named(ids: Seq<Seq<char>>)
    ensures
        files_named(ids).len() <= ids.len(),
    decreases ids.len(),
{
    if ids.len() > 0 {
        lemma_no_more_named(ids.drop_last());
    }
}

/// The number and the secret that are kept in a line are read from it again.
pub proof fn kept_credential_is_read(id: i32, key: &str, line: &str, kept: String, r: Option<(i32, String)>)
    requires
        call_ensures(credential_line, (id, key), kept),
        line@ == kept@,
        call_ensures(read_credential, (Some(line),), r),
        is_client_key(key@),
        id >= 0,
    ensures
        r matches Some(found) && found.0 == id && found.1@ == key@,
{
    credential_reads_back(id, key@);
}

/// The server is told that the client is alive at its start and every eleventh time from then on, and is asked
/// for files to remove every six hours, which is every two thousand one hundred and sixtieth time.
pub proof fn duties_return(start: Schedule, a: &mut Schedule, b: &mut Schedule, x: Duties, y: Duties)
    requires
        call_ensures(Schedule::new, (), start),
        call_ensures(Schedule::tick, (a,), x),
        call_ensures(Schedule::tick, (b,), y),
        old(a).count() < u32::MAX,
    ensures
        *old(a) == start ==> x.alive && !x.purge,
        final(a).count() == old(a).count() + 1,
        x.alive && old(b).count() - old(a).count() == 11 ==> y.alive,
        x.alive && 0 < old(b).count() - old(a).count() < 11 ==> !y.alive,
        x.purge && old(b).count() - old(a).count() == 6 * 60 * 6 ==> y.purge,
        x.purge && 0 < old(b).count() - old(a).count() < 6 * 60 * 6 ==> !y.purge,
        old(a).count() == 6 * 60 * 6 - 1 ==> x.purge,
{
}

/// The server is told of too many requests no more than once in half a minute: after one notice the next one
/// is due exactly when more than thirty seconds have passed, and asking in between changes nothing.
pub proof fn notices_keep_apart(a: &mut OverloadNotice, b: &mut OverloadNotice, t: u64, u: u64, x: bool, y: bool)
    requires
        call_ensures(OverloadNotice::overload, (a, t), x),
        *old(b) == *final(a),
        call_ensures(OverloadNotice::overload, (b, u), y),
        u >= t,
    ensures
        x ==> (y <==> u - t > 30_000_000_000),
        !x ==> final(a).told() == old(a).told(),
        old(a).told() is None && t > 0 ==> x,
{
}

/// The port that the user names comes first, and clients are watched unless the user does not want it.
pub proof fn user_decides(port: u16, server: u16, p: u16, q: u16, flood: bool, origin: bool, w: bool)
    requires
        call_ensures(listen_port, (Some(port), server), p),
        call_ensures(listen_port, (None, server), q),
        call_ensures(watch_clients, (flood, origin), w),
    ensures
        p == port && q == server,
        w <==> !flood && !origin,
{
}

/// A line without a hyphen holds no credential, and what follows a second hyphen is ignored.
pub proof fn credential_needs_a_hyphen(line: &str, id: i32, key: Seq<char>, rest: Seq<char>, r: Option<(i32, String)>)
    requires
        call_ensures(read_credential, (Some(line),), r),
        !key.contains('-') && !rest.contains('-'),
    ensures
        !line@.contains('-') ==> r is None,
        line@ == crate::text::join_seq(seq![crate::text::decimal_int(id as int), key, rest], seq!['-']) && id >= 0
            ==> (r matches Some(found) && found.0 == id && found.1@ == key),
{
    if !line@.contains('-') {
        let one = seq![line@];
        assert(crate::text::join_seq(one, seq!['-']) == line@);
        crate::text::split_of_join(one, '-');
    }
    if id >= 0 {
        crate::text::numbers_hold_digits(id as int, ' ');
        let parts = seq![crate::text::decimal_int(id as int), key, rest];
        assert forall|i: int| 0 <= i < parts.len() implies !(#[trigger] parts[i]).contains('-') by {}
        crate::text::split_of_join(parts, '-');
        crate::text::lemma_parse_decimal_int(id as int, i32::MIN as int, i32::MAX as int);
    }
}

/// The server is told of the first overload, unless it comes with the start itself, and of another one only
/// after half a minute.
pub proof fn first_overload_is_told(start: OverloadNotice, a: &mut OverloadNotice, now: u64, r: bool)
    requires
        call_ensures(OverloadNotice::new, (), start),
        *old(a) == start,
        call_ensures(OverloadNotice::overload, (a, now), r),
    ensures
        r <==> now != 0,
        r ==> final(a).told() == Some(now),
        !r ==> final(a).told() is None,
{
}

/// A secret is valid if it has twenty characters, each of them a letter or a digit.
pub proof fn secret_has_twenty_characters(key: &str, r: bool, i: int)
    requires
        call_ensures(valid_key, (key,), r),
    ensures
        r ==> key@.len() == 20,
        r && 0 <= i < key@.len() ==> ('a' <= key@[i] <= 'z' || 'A' <= key@[i] <= 'Z' || '0' <= key@[i] <= '9'),
        key@.len() == 20 && (forall|k: int| 0 <= k < 20 ==> '0' <= #[trigger] key@[k] <= '9') ==> r,
        key@.len() == 20 && (forall|k: int| 0 <= k < 20 ==> 'a' <= #[trigger] key@[k] <= 'z') ==> r,
        key@.len() == 20 && (forall|k: int| 0 <= k < 20 ==> 'A' <= #[trigger] key@[k] <= 'Z') ==> r,
{
}

} // verus!
