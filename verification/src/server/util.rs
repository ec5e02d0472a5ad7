//! Who is talking, how often, and how much of an answer is let through.
use std::collections::HashMap;

use vstd::prelude::*;

verus! {

broadcast use vstd::std_specs::hash::group_hash_axioms;

/// The address of a client, without its port.
#[derive(Clone, Copy, PartialEq, Eq, Structural, Debug)]
pub enum ClientIp {
    V4(u32),
    V6(u128),
}

impl ClientIp {
    /// The address in its usual form: an IPv4 address that is written as an IPv6 one, in either of the
    /// two ways `::a.b.c.d` and `::ffff:a.b.c.d`, is taken for what it is.
    pub open spec fn usual_form(self) -> ClientIp {
        match self {
            ClientIp::V4(_) => self,
            ClientIp::V6(bits) => if bits / 0x1_0000_0000 == 0 || bits / 0x1_0000_0000 == 0xFFFF {
                ClientIp::V4((bits % 0x1_0000_0000) as u32)
            } else {
                self
            },
        }
    }

    /// The address in its usual form.
    pub fn usual(&self) -> (r: ClientIp)
        ensures
            r == self.usual_form(),
    {
        match *self {
            ClientIp::V4(bits) => ClientIp::V4(bits),
            ClientIp::V6(bits) => {
                let upper: u128 = bits / 0x1_0000_0000;
                if upper == 0 || upper == 0xFFFF {
                    ClientIp::V4((bits % 0x1_0000_0000) as u32)
                } else {
                    ClientIp::V6(bits)
                }
            },
        }
    }
}

/// The addresses among some texts, in their usual form and in order. `None` stands for a text that
/// is no address.
pub open spec fn usual_forms(read: Seq<Option<ClientIp>>) -> Seq<ClientIp>
    decreases read.len(),
{
    if read.len() == 0 {
        Seq::empty()
    } else {
        match read.last() {
            Some(ip) => usual_forms(read.drop_last()).push(ip.usual_form()),
            None => usual_forms(read.drop_last()),
        }
    }
}

/// The addresses among some texts, in their usual form and in order. `None` stands for a text that
/// is no address.
pub fn usual_addresses(read: &Vec<Option<ClientIp>>) -> (r: Vec<ClientIp>)
    ensures
        r@ == usual_forms(read@),
{
    let mut out: Vec<ClientIp> = Vec::new();
    for i in 0..read.len()
        invariant
            out@ == usual_forms(read@.take(i as int)),
    {
        assert(read@.take(i + 1).drop_last() =~= read@.take(i as int));
        match &read[i] {
            Some(ip) => {
                out.push(ip.usual());
            },
            None => {},
        }
    }
    assert(read@.take(read@.len() as int) =~= read@);
    out
}

/// The address of a client.
#[derive(Clone, Copy, PartialEq, Eq, Structural, Debug)]
pub struct ClientAddr {
    pub ip: ClientIp,
    pub port: u16,
}

impl ClientAddr {
    /// The address without the port.
    pub fn ip(&self) -> (r: ClientIp)
        ensures
            r == self.ip,
    {
        self.ip
    }
}

/// Ten seconds, in nanoseconds.
pub const TEN_SECONDS: u64 = 10_000_000_000;

/// How long a client is kept out, in nanoseconds.
pub const BLOCK_TIME: u64 = 60_000_000_000;

/// So many connections in a short time are too many.
pub const HIT_LIMIT: u8 = 10;

/// The time that has passed, in nanoseconds.
pub open spec fn elapsed(now: u64, since: u64) -> u64 {
    if now >= since {
        (now - since) as u64
    } else {
        0
    }
}

fn time_since(now: u64, since: u64) -> (r: u64)
    ensures
        r == elapsed(now, since),
{
    if now >= since {
        now - since
    } else {
        0
    }
}

/// What is known of the clients: when the tables were cleaned, how often each one came and when it
/// came last, and until when each one is kept out. Times are nanoseconds.
#[verifier::ext_equal]
pub struct FloodView {
    pub last_clean: u64,
    pub hits: Map<ClientIp, (u8, u64)>,
    pub blocks: Map<ClientIp, u64>,
}

/// A client that came so often so long ago, and comes again now. Each second that has passed makes
/// up for one connection.
pub open spec fn next_count(count: u8, since: u64, now: u64) -> u8 {
    let seconds = elapsed(now, since) / 1_000_000_000;
    let made_up = if seconds < 10 {
        seconds
    } else {
        10
    };
    if count >= made_up {
        (count - made_up + 1) as u8
    } else {
        1
    }
}

impl FloodView {
    /// Whether a client is kept out.
    pub open spec fn blocked(self, ip: ClientIp, now: u64) -> bool {
        self.blocks.contains_key(ip) && self.blocks[ip] > now
    }

    /// Counts stay below the limit, but for clients that were kept out when they reached it.
    pub open spec fn wf(self) -> bool {
        forall|ip: ClientIp| #[trigger]
            self.hits.contains_key(ip) ==> 1 <= self.hits[ip].0 <= HIT_LIMIT && (self.hits[ip].0
                == HIT_LIMIT ==> self.blocks.contains_key(ip) && self.blocks[ip] == self.hits[ip].1
                + BLOCK_TIME)
    }

    /// Whether all that is known happened before a time.
    pub open spec fn as_of(self, now: u64) -> bool {
        &&& self.last_clean <= now
        &&& forall|ip: ClientIp| #[trigger] self.hits.contains_key(ip) ==> self.hits[ip].1 <= now
    }

    /// What is known without what no longer matters. It is cleaned every ten seconds.
    pub open spec fn cleaned(self, now: u64) -> FloodView {
        if elapsed(now, self.last_clean) > TEN_SECONDS {
            FloodView {
                last_clean: now,
                hits: self.hits.restrict(
                    Set::new(
                        |ip: ClientIp|
                            self.hits.contains_key(ip) && elapsed(now, self.hits[ip].1) < TEN_SECONDS,
                    ),
                ),
                blocks: self.blocks.restrict(
                    Set::new(|ip: ClientIp| self.blocks.contains_key(ip) && self.blocks[ip] > now),
                ),
            }
        } else {
            self
        }
    }

    /// How often a client that comes now came.
    pub open spec fn count(self, ip: ClientIp, now: u64) -> u8 {
        if self.hits.contains_key(ip) {
            next_count(self.hits[ip].0, self.hits[ip].1, now)
        } else {
            1
        }
    }

    /// What is known after a client has come, and whether it is kept out.
    pub open spec fn hit(self, ip: ClientIp, now: u64) -> (FloodView, bool) {
        let v = self.cleaned(now);
        if v.blocked(ip, now) {
            (v, true)
        } else {
            let count = v.count(ip, now);
            let counted = FloodView { hits: v.hits.insert(ip, (count, now)), ..v };
            if count >= HIT_LIMIT {
                (
                    FloodView { blocks: v.blocks.insert(ip, (now + BLOCK_TIME) as u64), ..counted },
                    true,
                )
            } else {
                (counted, false)
            }
        }
    }
}

/// The clients of one kind of address.
struct FloodTable {
    hits: HashMap<u128, (u8, u64)>,
    blocks: HashMap<u128, u64>,
}

impl FloodTable {
    fn new() -> (r: FloodTable)
        ensures
            r.hits@ == Map::<u128, (u8, u64)>::empty(),
            r.blocks@ == Map::<u128, u64>::empty(),
    {
        FloodTable { hits: HashMap::new(), blocks: HashMap::new() }
    }

    /// Drops what no longer matters.
    fn clean(&mut self, now: u64)
        ensures
            forall|k: u128| #[trigger]
                final(self).hits@.contains_key(k) <==> old(self).hits@.contains_key(k) && elapsed(
                    now,
                    old(self).hits@[k].1,
                ) < TEN_SECONDS,
            forall|k: u128| #[trigger]
                final(self).hits@.contains_key(k) ==> final(self).hits@[k] == old(self).hits@[k],
            forall|k: u128| #[trigger]
                final(self).blocks@.contains_key(k) <==> old(self).blocks@.contains_key(k)
                    && old(self).blocks@[k] > now,
            forall|k: u128| #[trigger]
                final(self).blocks@.contains_key(k) ==> final(self).blocks@[k] == old(
                    self,
                ).blocks@[k],
    {
        let mut hits: HashMap<u128, (u8, u64)> = HashMap::new();
        for (k, v) in it: self.hits.iter()
            invariant
                forall|k: u128| #[trigger]
                    hits@.contains_key(k) <==> self.hits@.contains_key(k) && elapsed(
                        now,
                        self.hits@[k].1,
                    ) < TEN_SECONDS && exists|i: int|
                        0 <= i < it.index() && *(#[trigger] it.seq()[i]).0 == k,
                forall|k: u128| #[trigger] hits@.contains_key(k) ==> hits@[k] == self.hits@[k],
        {
            assert(self.hits@.contains_key(*k) && self.hits@[*k] == *v);
            if time_since(now, v.1) < TEN_SECONDS {
                hits.insert(*k, *v);
            }
            assert(*it.seq()[it.index() as int].0 == *k);
        }
        let mut blocks: HashMap<u128, u64> = HashMap::new();
        for (k, v) in it: self.blocks.iter()
            invariant
                forall|k: u128| #[trigger]
                    blocks@.contains_key(k) <==> self.blocks@.contains_key(k) && self.blocks@[k]
                        > now && exists|i: int|
                        0 <= i < it.index() && *(#[trigger] it.seq()[i]).0 == k,
                forall|k: u128| #[trigger] blocks@.contains_key(k) ==> blocks@[k] == self.blocks@[k],
        {
            assert(self.blocks@.contains_key(*k) && self.blocks@[*k] == *v);
            if *v > now {
                blocks.insert(*k, *v);
            }
            assert(*it.seq()[it.index() as int].0 == *k);
        }
        self.hits = hits;
        self.blocks = blocks;
    }

    /// Counts a client that comes now, and tells whether it is kept out.
    fn hit(&mut self, key: u128, now: u64) -> (r: bool)
        requires
            now + BLOCK_TIME <= u64::MAX,
            old(self).hits@.contains_key(key) ==> old(self).hits@[key].0 <= HIT_LIMIT,
        ensures
            ({
                let blocked = old(self).blocks@.contains_key(key) && old(self).blocks@[key] > now;
                let count = if old(self).hits@.contains_key(key) {
                    next_count(old(self).hits@[key].0, old(self).hits@[key].1, now)
                } else {
                    1
                };
                &&& r == (blocked || count >= HIT_LIMIT)
                &&& final(self).hits@ == if blocked {
                    old(self).hits@
                } else {
                    old(self).hits@.insert(key, (count, now))
                }
                &&& final(self).blocks@ == if !blocked && count >= HIT_LIMIT {
                    old(self).blocks@.insert(key, (now + BLOCK_TIME) as u64)
                } else {
                    old(self).blocks@
                }
            }),
    {
        match self.blocks.get(&key) {
            Some(until) => {
                if *until > now {
                    return true;
                }
            },
            None => {},
        }
        let (hit, time) = match self.hits.get(&key) {
            Some(entry) => *entry,
            None => (0, now),
        };
        let seconds: u64 = time_since(now, time) / 1_000_000_000;
        let made_up: u8 = if seconds < 10 { seconds as u8 } else { 10 };
        let count: u8 = hit.saturating_sub(made_up) + 1;
        self.hits.insert(key, (count, now));
        if count >= HIT_LIMIT {
            self.blocks.insert(key, now + BLOCK_TIME);
            true
        } else {
            false
        }
    }
}

/// Keeps clients out that come too often.
pub struct FloodControl {
    last_clean: u64,
    v4: FloodTable,
    v6: FloodTable,
}

/// The entries of two tables by address.
spec fn by_address<T>(v4: Map<u128, T>, v6: Map<u128, T>) -> Map<ClientIp, T> {
    Map::new(
        |ip: ClientIp|
            match ip {
                ClientIp::V4(a) => v4.contains_key(a as u128),
                ClientIp::V6(a) => v6.contains_key(a),
            },
        |ip: ClientIp|
            match ip {
                ClientIp::V4(a) => v4[a as u128],
                ClientIp::V6(a) => v6[a],
            },
    )
}

impl View for FloodControl {
    type V = FloodView;

    closed spec fn view(&self) -> FloodView {
        FloodView {
            last_clean: self.last_clean,
            hits: by_address(self.v4.hits@, self.v6.hits@),
            blocks: by_address(self.v4.blocks@, self.v6.blocks@),
        }
    }
}

/// Cleaning keeps what is known in order.
proof fn lemma_cleaned(v: FloodView, now: u64)
    requires
        v.wf(),
        v.as_of(now),
    ensures
        v.cleaned(now).wf(),
        v.cleaned(now).as_of(now),
{
    let c = v.cleaned(now);
    assert forall|ip: ClientIp| #[trigger] c.hits.contains_key(ip) implies 1 <= c.hits[ip].0 <= HIT_LIMIT && (
    c.hits[ip].0 == HIT_LIMIT ==> c.blocks.contains_key(ip) && c.blocks[ip] == c.hits[ip].1
        + BLOCK_TIME) by {
        assert(v.hits.contains_key(ip));
    }
    assert forall|ip: ClientIp| #[trigger] c.hits.contains_key(ip) implies c.hits[ip].1 <= now by {
        assert(v.hits.contains_key(ip));
    }
}

/// A client that is not kept out has not come too often.
proof fn lemma_count(v: FloodView, ip: ClientIp, now: u64)
    requires
        v.wf(),
        v.as_of(now),
        !v.blocked(ip, now),
    ensures
        1 <= v.count(ip, now) <= HIT_LIMIT,
{
    if v.hits.contains_key(ip) {
        assert(1 <= v.hits[ip].0 <= HIT_LIMIT);
    }
}

impl FloodControl {
    /// Nobody has come yet.
    pub fn new(now: u64) -> (r: FloodControl)
        ensures
            r@ == (FloodView { last_clean: now, hits: Map::empty(), blocks: Map::empty() }),
            r@.wf(),
            r@.as_of(now),
    {
        let r = FloodControl { last_clean: now, v4: FloodTable::new(), v6: FloodTable::new() };
        assert(r@ =~= FloodView { last_clean: now, hits: Map::empty(), blocks: Map::empty() });
        r
    }

    /// Counts a client that comes now, and tells whether it is kept out. Time does not run backwards.
    pub fn hit(&mut self, addr: ClientAddr, now: u64) -> (r: bool)
        requires
            old(self)@.wf(),
            old(self)@.as_of(now),
            now + BLOCK_TIME <= u64::MAX,
        ensures
            (final(self)@, r) == old(self)@.hit(addr.ip, now),
            final(self)@.wf(),
            final(self)@.as_of(now),
    {
        let ghost before = self@;
        let ip = addr.ip();
        if time_since(now, self.last_clean) > TEN_SECONDS {
            self.v4.clean(now);
            self.v6.clean(now);
            self.last_clean = now;
        }
        let ghost v = before.cleaned(now);
        assert(self@ =~= v);
        proof {
            lemma_cleaned(before, now);
            if !v.blocked(ip, now) {
                lemma_count(v, ip, now);
            }
            assert(v.hits.contains_key(ip) ==> v.hits[ip].0 <= HIT_LIMIT);
            hit_keeps_order(before, ip, now);
        }
        let r = match ip {
            ClientIp::V4(a) => {
                assert(v.hits.contains_key(ip) == self.v4.hits@.contains_key(a as u128));
                assert(v.blocks.contains_key(ip) == self.v4.blocks@.contains_key(a as u128));
                self.v4.hit(a as u128, now)
            },
            ClientIp::V6(a) => {
                assert(v.hits.contains_key(ip) == self.v6.hits@.contains_key(a));
                assert(v.blocks.contains_key(ip) == self.v6.blocks@.contains_key(a));
                self.v6.hit(a, now)
            },
        };
        assert(self@ =~= before.hit(ip, now).0);
        r
    }
}

/// What is known stays in order, whoever comes.
pub proof fn hit_keeps_order(v: FloodView, ip: ClientIp, now: u64)
    requires
        v.wf(),
        v.as_of(now),
        now + BLOCK_TIME <= u64::MAX,
    ensures
        v.hit(ip, now).0.wf(),
        v.hit(ip, now).0.as_of(now),
{
    lemma_cleaned(v, now);
    let c = v.cleaned(now);
    if !c.blocked(ip, now) {
        lemma_count(c, ip, now);
        let after = v.hit(ip, now).0;
        assert forall|other: ClientIp| #[trigger] after.hits.contains_key(other) implies 1
            <= after.hits[other].0 <= HIT_LIMIT && (after.hits[other].0 == HIT_LIMIT
            ==> after.blocks.contains_key(other) && after.blocks[other] == after.hits[other].1
            + BLOCK_TIME) by {
            if other != ip {
                assert(c.hits.contains_key(other));
            }
        }
        assert forall|other: ClientIp| #[trigger] after.hits.contains_key(other) implies after.hits[other].1
            <= now by {
            if other != ip {
                assert(c.hits.contains_key(other));
            }
        }
    }
}

/// One client never keeps another one out, nor lets it in.
pub proof fn others_are_not_affected(v: FloodView, ip: ClientIp, other: ClientIp, now: u64, later: u64)
    requires
        ip != other,
        now <= later,
    ensures
        v.hit(ip, now).0.blocked(other, later) == v.blocked(other, later),
{
}

/// A client that is kept out stays out, and coming again does not make it longer.
pub proof fn blocked_stays_blocked(v: FloodView, ip: ClientIp, now: u64)
    requires
        v.blocked(ip, now),
    ensures
        v.hit(ip, now).1,
        v.hit(ip, now).0.blocks.contains_key(ip),
        v.hit(ip, now).0.blocks[ip] == v.blocks[ip],
{
}

/// A client that was kept out is let in again after its time, and starts anew.
pub proof fn block_ends(v: FloodView, ip: ClientIp, now: u64)
    requires
        v.wf(),
        v.as_of(now),
        v.hits.contains_key(ip),
        v.hits[ip].0 == HIT_LIMIT,
        v.blocks[ip] <= now,
    ensures
        !v.hit(ip, now).1,
        v.hit(ip, now).0.hits[ip] == (1u8, now),
{
    let c = v.cleaned(now);
    if c.hits.contains_key(ip) {
        assert(v.hits.contains_key(ip));
        assert(elapsed(now, v.hits[ip].1) / 1_000_000_000 >= 10);
    }
}

/// A client that comes no more than once a second is never kept out.
pub proof fn slow_client_is_let_in(v: FloodView, ip: ClientIp, now: u64)
    requires
        !v.blocked(ip, now),
        v.hits.contains_key(ip) ==> v.hits[ip].0 == 1 && v.hits[ip].1 + 1_000_000_000 <= now,
    ensures
        !v.hit(ip, now).1,
        v.hit(ip, now).0.hits[ip] == (1u8, now),
        !v.hit(ip, now).0.blocked(ip, now),
{
    let c = v.cleaned(now);
    if c.hits.contains_key(ip) {
        assert(elapsed(now, v.hits[ip].1) / 1_000_000_000 >= 1);
    }
}

/// The clients that came one after the other, each at its time.
pub open spec fn hits(v: FloodView, ip: ClientIp, times: Seq<u64>) -> FloodView
    decreases times.len(),
{
    if times.len() == 0 {
        v
    } else {
        hits(v, ip, times.drop_last()).hit(ip, times.last()).0
    }
}

/// Whether each time is less than a second after the one before.
pub open spec fn quick(times: Seq<u64>) -> bool {
    forall|i: int, j: int|
        0 <= i < times.len() && j == i + 1 && j < times.len() ==> #[trigger] times[i] <= #[trigger] times[j]
            < times[i] + 1_000_000_000
}

/// A client that comes in quick succession is let in nine times, and kept out the tenth time.
pub proof fn quick_client_is_kept_out(v: FloodView, ip: ClientIp, times: Seq<u64>)
    requires
        !v.hits.contains_key(ip),
        !v.blocks.contains_key(ip),
        1 <= times.len() <= 10,
        quick(times),
        forall|i: int| 0 <= i < times.len() ==> #[trigger] times[i] + BLOCK_TIME <= u64::MAX,
    ensures
        hits(v, ip, times.drop_last()).hit(ip, times.last()).1 == (times.len() == 10),
        hits(v, ip, times).hits.contains_key(ip),
        hits(v, ip, times).hits[ip] == (times.len() as u8, times.last()),
        times.len() < 10 ==> !hits(v, ip, times).blocks.contains_key(ip),
    decreases times.len(),
{
    let before = times.drop_last();
    if times.len() == 1 {
        assert(hits(v, ip, before) == v);
    } else {
        assert forall|i: int, j: int|
            0 <= i < before.len() && j == i + 1 && j < before.len() implies #[trigger] before[i] <= #[trigger] before[j]
            < before[i] + 1_000_000_000 by {
            assert(times[i] <= times[j]);
        }
        assert forall|i: int| 0 <= i < before.len() implies #[trigger] before[i] + BLOCK_TIME <= u64::MAX by {
            assert(times[i] + BLOCK_TIME <= u64::MAX);
        }
        quick_client_is_kept_out(v, ip, before);
        assert(times[times.len() - 2] <= times[times.len() - 1]);
        let w = hits(v, ip, before);
        assert(elapsed(times.last(), before.last()) / 1_000_000_000 == 0);
    }
}

/// A row of connections, each of a client at a time.
pub open spec fn after_row(v: FloodView, row: Seq<(ClientIp, u64)>) -> FloodView
    decreases row.len(),
{
    if row.len() == 0 {
        v
    } else {
        after_row(v, row.drop_last()).hit(row.last().0, row.last().1).0
    }
}

/// Whether time does not run backwards in a row that starts at a time.
pub open spec fn in_time(row: Seq<(ClientIp, u64)>, start: u64) -> bool {
    &&& forall|i: int| 0 <= i < row.len() ==> start <= (#[trigger] row[i]).1 && row[i].1 + BLOCK_TIME <= u64::MAX
    &&& forall|i: int, j: int| 0 <= i <= j < row.len() ==> (#[trigger] row[i]).1 <= (#[trigger] row[j]).1
}

/// Whether a client comes no more than once a second in a row.
pub open spec fn comes_slowly(row: Seq<(ClientIp, u64)>, ip: ClientIp) -> bool {
    forall|i: int, j: int|
        0 <= i < j < row.len() && (#[trigger] row[i]).0 == ip && (#[trigger] row[j]).0 == ip ==> row[i].1
            + 1_000_000_000 <= row[j].1
}

/// Whether a client is kept out when it comes at a place of a row.
pub open spec fn kept_out(v: FloodView, row: Seq<(ClientIp, u64)>, k: int) -> bool {
    after_row(v, row.take(k)).hit(row[k].0, row[k].1).1
}

/// A client that comes slowly is never noted to be kept out, and counts once.
proof fn lemma_slow_row(start: u64, row: Seq<(ClientIp, u64)>, ip: ClientIp)
    requires
        in_time(row, start),
        comes_slowly(row, ip),
    ensures
        ({
            let v = after_row(FloodView { last_clean: start, hits: Map::empty(), blocks: Map::empty() }, row);
            &&& !v.blocks.contains_key(ip)
            &&& v.hits.contains_key(ip) ==> v.hits[ip].0 == 1 && exists|i: int|
                0 <= i < row.len() && #[trigger] row[i] == (ip, v.hits[ip].1)
        }),
    decreases row.len(),
{
    if row.len() > 0 {
        let before = row.drop_last();
        let fresh = FloodView { last_clean: start, hits: Map::empty(), blocks: Map::empty() };
        lemma_slow_row(start, before, ip);
        let v = after_row(fresh, before);
        let (who, now) = row.last();
        let after = after_row(fresh, row);
        if v.hits.contains_key(ip) {
            let i = choose|i: int| 0 <= i < before.len() && #[trigger] before[i] == (ip, v.hits[ip].1);
            assert(row[i] == before[i]);
            assert(row[row.len() - 1] == row.last());
            if who == ip {
                slow_client_is_let_in(v, ip, now);
            }
        } else if who == ip {
            slow_client_is_let_in(v, ip, now);
        }
        if who == ip {
            assert(row[row.len() - 1] == (ip, after.hits[ip].1));
        }
    }
}

/// A client that comes no more than once a second is never kept out, whoever else comes and however
/// often.
pub proof fn slow_client_is_never_kept_out(start: u64, row: Seq<(ClientIp, u64)>, ip: ClientIp, k: int)
    requires
        in_time(row, start),
        comes_slowly(row, ip),
        0 <= k < row.len(),
        row[k].0 == ip,
    ensures
        !kept_out(FloodView { last_clean: start, hits: Map::empty(), blocks: Map::empty() }, row, k),
{
    let fresh = FloodView { last_clean: start, hits: Map::empty(), blocks: Map::empty() };
    let before = row.take(k);
    assert forall|i: int| 0 <= i < before.len() implies start <= (#[trigger] before[i]).1 && before[i].1 + BLOCK_TIME
        <= u64::MAX by {
        assert(before[i] == row[i]);
    }
    lemma_slow_row(start, before, ip);
    let v = after_row(fresh, before);
    if v.hits.contains_key(ip) {
        let i = choose|i: int| 0 <= i < before.len() && #[trigger] before[i] == (ip, v.hits[ip].1);
        assert(row[i] == before[i]);
    }
    slow_client_is_let_in(v, ip, row[k].1);
}

/// As long as a client that is kept out did not come after its time, it is known to be kept out until
/// then, or nothing that matters is known of it.
proof fn lemma_block_row(v: FloodView, ip: ClientIp, start: u64, row: Seq<(ClientIp, u64)>)
    requires
        v.hits.contains_key(ip) ==> v.hits[ip] == (HIT_LIMIT, start),
        v.blocks.contains_key(ip),
        v.blocks[ip] == start + BLOCK_TIME,
        in_time(row, start),
        forall|i: int|
            0 <= i < row.len() && (#[trigger] row[i]).0 == ip ==> row[i].1 < start + BLOCK_TIME,
    ensures
        ({
            let w = after_row(v, row);
            &&& w.hits.contains_key(ip) ==> w.hits[ip] == (HIT_LIMIT, start)
            &&& w.blocks.contains_key(ip) ==> w.blocks[ip] == start + BLOCK_TIME
            &&& row.len() == 0 || row.last().1 < start + BLOCK_TIME ==> w.blocks.contains_key(ip)
        }),
    decreases row.len(),
{
    if row.len() > 0 {
        let before = row.drop_last();
        assert forall|i: int| 0 <= i < before.len() implies start <= (#[trigger] before[i]).1 && before[i].1 + BLOCK_TIME
            <= u64::MAX && (before[i].0 == ip ==> before[i].1 < start + BLOCK_TIME) by {
            assert(before[i] == row[i]);
        }
        lemma_block_row(v, ip, start, before);
        assert(row[row.len() - 1] == row.last());
        if before.len() > 0 {
            assert(before.last() == row[row.len() - 2]);
            assert(row[row.len() - 2].1 <= row[row.len() - 1].1);
        }
    }
}

/// A client that came too often is kept out each time it comes within the next minute, and that does
/// not make the time any longer. When it comes for the first time after that, it is let in and starts
/// anew. Whoever else comes meanwhile makes no difference.
pub proof fn kept_out_for_a_minute(v: FloodView, ip: ClientIp, start: u64, row: Seq<(ClientIp, u64)>, k: int)
    requires
        v.wf(),
        v.as_of(start),
        start + BLOCK_TIME <= u64::MAX,
        !v.cleaned(start).blocked(ip, start),
        v.hit(ip, start).1,
        in_time(row, start),
        0 <= k < row.len(),
        row[k].0 == ip,
        forall|i: int| 0 <= i < k && (#[trigger] row[i]).0 == ip ==> row[i].1 < start + BLOCK_TIME,
    ensures
        ({
            let (w, out) = after_row(v.hit(ip, start).0, row.take(k)).hit(ip, row[k].1);
            if row[k].1 < start + BLOCK_TIME {
                out && w.blocks.contains_key(ip) && w.blocks[ip] == start + BLOCK_TIME
            } else {
                !out && w.hits.contains_key(ip) && w.hits[ip] == (1u8, row[k].1)
            }
        }),
{
    lemma_cleaned(v, start);
    lemma_count(v.cleaned(start), ip, start);
    let blocked = v.hit(ip, start).0;
    let before = row.take(k);
    assert forall|i: int| 0 <= i < before.len() implies start <= (#[trigger] before[i]).1 && before[i].1 + BLOCK_TIME
        <= u64::MAX && (before[i].0 == ip ==> before[i].1 < start + BLOCK_TIME) by {
        assert(before[i] == row[i]);
    }
    lemma_block_row(blocked, ip, start, before);
    let w = after_row(blocked, before);
    let now = row[k].1;
    if k > 0 {
        assert(before.last() == row[k - 1]);
        assert(row[k - 1].1 <= now);
    }
    if now < start + BLOCK_TIME {
        blocked_stays_blocked(w, ip, now);
    } else {
        let c = w.cleaned(now);
        assert(!c.blocked(ip, now));
        assert(elapsed(now, start) / 1_000_000_000 >= 10);
    }
}

/// The rest of an answer that is let through: no more than so many bytes.
pub struct TruncateBody<B> {
    limit: u64,
    inner: B,
}

impl<B> TruncateBody<B> {
    /// How many bytes may still pass.
    pub closed spec fn left(&self) -> u64 {
        self.limit
    }

    /// What the bytes come from.
    pub closed spec fn source(&self) -> B {
        self.inner
    }

    /// Lets so many bytes through.
    pub fn new(inner: B, limit: u64) -> (r: TruncateBody<B>)
        ensures
            r.left() == limit,
            r.source() == inner,
    {
        TruncateBody { limit, inner }
    }

    /// What the bytes come from.
    pub fn inner(&self) -> (r: &B)
        ensures
            *r == self.source(),
    {
        &self.inner
    }

    /// How much of a piece of so many bytes passes, `None` at the end.
    pub fn pass(&mut self, len: u64) -> (r: Option<u64>)
        ensures
            final(self).source() == old(self).source(),
            match r {
                Some(n) => old(self).left() > 0 && n == passed(old(self).left(), len)
                    && final(self).left() == old(self).left() - n,
                None => old(self).left() == 0 && final(self).left() == 0,
            },
    {
        if self.limit == 0 {
            return None;
        }
        if len > self.limit {
            let n: u64 = self.limit;
            self.limit = 0;
            Some(n)
        } else {
            self.limit = self.limit - len;
            Some(len)
        }
    }

    /// How many bytes are to be expected, given what the source says: at least, and at most.
    pub fn size_hint(&self, lower: u64, upper: Option<u64>) -> (r: (u64, Option<u64>))
        requires
            upper matches Some(max) ==> lower <= max,
        ensures
            r.0 == if lower >= self.left() {
                self.left()
            } else {
                lower
            },
            r.1 == Some(
                match upper {
                    Some(max) if lower < self.left() && max < self.left() => max,
                    _ => self.left(),
                },
            ),
    {
        if lower >= self.limit {
            (self.limit, Some(self.limit))
        } else {
            match upper {
                Some(max) => (lower, Some(if max < self.limit { max } else { self.limit })),
                None => (lower, Some(self.limit)),
            }
        }
    }
}

/// How much of a piece passes.
pub open spec fn passed(limit: u64, len: u64) -> u64 {
    if len > limit {
        limit
    } else {
        len
    }
}

/// The bytes of some pieces.
pub open spec fn sum(pieces: Seq<u64>) -> int
    decreases pieces.len(),
{
    if pieces.len() == 0 {
        0
    } else {
        sum(pieces.drop_last()) + pieces.last()
    }
}

/// What may still pass after some pieces.
pub open spec fn limit_after(limit: u64, pieces: Seq<u64>) -> u64
    decreases pieces.len(),
{
    if pieces.len() == 0 {
        limit
    } else {
        let before = limit_after(limit, pieces.drop_last());
        (before - passed(before, pieces.last())) as u64
    }
}

/// Exactly the limit passes of an answer that is longer, and all of one that is not.
pub proof fn exactly_the_limit_passes(limit: u64, pieces: Seq<u64>)
    ensures
        limit - limit_after(limit, pieces) == if sum(pieces) > limit {
            limit as int
        } else {
            sum(pieces)
        },
        sum(pieces) >= 0,
    decreases pieces.len(),
{
    if pieces.len() > 0 {
        exactly_the_limit_passes(limit, pieces.drop_last());
    }
}

/// The bytes of some pieces that are let through.
pub open spec fn let_through(limit: u64, pieces: Seq<Seq<u8>>) -> Seq<u8>
    decreases pieces.len(),
{
    if pieces.len() == 0 {
        Seq::empty()
    } else {
        let left = limit_after(limit, lengths(pieces.drop_last()));
        let piece = pieces.last();
        let_through(limit, pieces.drop_last()) + piece.take(passed(left, piece.len() as u64) as int)
    }
}

/// The lengths of some pieces.
pub open spec fn lengths(pieces: Seq<Seq<u8>>) -> Seq<u64> {
    Seq::new(pieces.len(), |i: int| pieces[i].len() as u64)
}

/// What is let through of an answer is its beginning: its first bytes, up to the limit, in whatever
/// pieces they come.
pub proof fn beginning_is_let_through(limit: u64, pieces: Seq<Seq<u8>>)
    requires
        forall|i: int| 0 <= i < pieces.len() ==> (#[trigger] pieces[i]).len() <= u64::MAX,
    ensures
        ({
            let answer = crate::util::joined(pieces);
            let n = if answer.len() > limit {
                limit as int
            } else {
                answer.len() as int
            };
            let_through(limit, pieces) == answer.take(n) && limit_after(limit, lengths(pieces)) == limit - n
        }),
    decreases pieces.len(),
{
    let answer = crate::util::joined(pieces);
    if pieces.len() == 0 {
        assert(answer.take(0) =~= Seq::empty());
    } else {
        let before = pieces.drop_last();
        let piece = pieces.last();
        assert forall|i: int| 0 <= i < before.len() implies (#[trigger] before[i]).len() <= u64::MAX by {
            assert(before[i] == pieces[i]);
        }
        beginning_is_let_through(limit, before);
        assert(pieces[pieces.len() - 1] == piece);
        assert(lengths(pieces).drop_last() =~= lengths(before));
        let start = crate::util::joined(before);
        if start.len() > limit {
            assert(answer.take(limit as int) =~= start.take(limit as int) + piece.take(0));
        } else {
            assert(start.take(start.len() as int) =~= start);
            let n = passed((limit - start.len()) as u64, piece.len() as u64) as int;
            assert(answer.take(start.len() + n) =~= start + piece.take(n));
        }
    }
}

/// An IPv4 address is the same in each of its three ways to be written, every other address is left as it is,
/// and bringing an address to its usual form twice changes nothing more.
pub proof fn usual_form_is_one(a: u32, ip: &ClientIp, r: ClientIp, again: ClientIp)
    requires
        call_ensures(ClientIp::usual, (ip,), r),
        call_ensures(ClientIp::usual, (&r,), again),
    ensures
        *ip == ClientIp::V4(a) ==> r == ClientIp::V4(a),
        *ip == ClientIp::V6(a as u128) ==> r == ClientIp::V4(a),
        *ip == ClientIp::V6((0xFFFF_0000_0000 + a) as u128) ==> r == ClientIp::V4(a),
        (*ip matches ClientIp::V6(bits) && bits >= 0x1_0000_0000 && !(0xFFFF_0000_0000 <= bits
            <= 0xFFFF_FFFF_FFFF)) ==> r == *ip,
        again == r,
{
}

/// The addresses among some texts are those of the first texts and those of the others, in order; what is no
/// address is left out.
pub proof fn addresses_keep_their_order(a: Seq<Option<ClientIp>>, b: Seq<Option<ClientIp>>, ip: ClientIp)
    ensures
        usual_forms(a + b) == usual_forms(a) + usual_forms(b),
        usual_forms(seq![Some(ip)]) == seq![ip.usual_form()],
        usual_forms(seq![None]).len() == 0,
    decreases b.len(),
{
    assert(usual_forms(Seq::empty()) =~= Seq::empty());
    assert(seq![Some(ip)].drop_last() =~= Seq::empty());
    assert(seq![None::<ClientIp>].drop_last() =~= Seq::empty());
    assert(usual_forms(seq![Some(ip)]) =~= seq![ip.usual_form()]);
    if b.len() == 0 {
        assert(a + b =~= a);
        assert(usual_forms(a) + usual_forms(b) =~= usual_forms(a));
    } else {
        addresses_keep_their_order(a, b.drop_last(), ip);
        assert((a + b).drop_last() =~= a + b.drop_last());
        assert(usual_forms(a + b) =~= usual_forms(a) + usual_forms(b));
    }
}

/// What is said of the size of an answer that is cut off holds: if the source sends as much as it says, what is
/// let through is as much as is said here.
pub proof fn size_of_cut_answer_is_told(
    body: &TruncateBody<u64>,
    lower: u64,
    upper: Option<u64>,
    r: (u64, Option<u64>),
    total: u64,
)
    requires
        call_ensures(TruncateBody::<u64>::size_hint, (body, lower, upper), r),
        lower <= total,
        upper matches Some(max) ==> total <= max,
    ensures
        ({
            let sent = if total < body.left() {
                total
            } else {
                body.left()
            };
            r.0 <= sent && (r.1 matches Some(max) && sent <= max && max <= body.left())
        }),
        upper == Some(lower) ==> r.1 == Some(r.0),
        lower >= body.left() ==> r == (body.left(), Some(body.left())),
{
}

/// A piece of an answer passes as far as the limit allows; after the limit nothing passes any more.
pub proof fn limit_is_kept(a: &mut TruncateBody<u64>, len: u64, r: Option<u64>)
    requires
        call_ensures(TruncateBody::<u64>::pass, (a, len), r),
    ensures
        r is None <==> old(a).left() == 0,
        r matches Some(n) ==> n <= len && n <= old(a).left() && (n == len || n == old(a).left())
            && final(a).left() == old(a).left() - n,
        final(a).source() == old(a).source(),
{
}

/// A client that was counted is refused the tenth time it comes within a second of the time before, and is
/// kept out for sixty seconds; the control and what is known of it follow the same rule.
pub proof fn control_follows_rule(control: &mut FloodControl, addr: ClientAddr, now: u64, r: bool)
    requires
        call_ensures(FloodControl::hit, (control, addr, now), r),
        old(control)@.wf() && old(control)@.as_of(now),
        now + 60_000_000_000 <= u64::MAX,
    ensures
        old(control)@.blocked(addr.ip, now) ==> r && final(control)@.blocks[addr.ip] == old(
            control)@.blocks[addr.ip],
        !old(control)@.blocked(addr.ip, now) && r ==> final(control)@.blocks.contains_key(addr.ip)
            && final(control)@.blocks[addr.ip] == now + 60_000_000_000,
        !old(control)@.blocked(addr.ip, now) && (old(control)@.hits.contains_key(addr.ip) ==> old(
            control)@.hits[addr.ip].0 == 1) ==> !r,
        !old(control)@.blocked(addr.ip, now) && old(control)@.hits.contains_key(addr.ip) && old(
            control)@.hits[addr.ip].0 == 9 && now - old(control)@.hits[addr.ip].1 < 1_000_000_000 ==> r,
{
    let v = old(control)@;
    let c = v.cleaned(now);
    assert(c.hits.contains_key(addr.ip) ==> v.hits.contains_key(addr.ip));
}

/// What is known of the clients is cleaned when the last time is more than ten seconds ago, and not before.
/// Then a client that came ten seconds ago or earlier is forgotten, and so is a block that is over; all others
/// are kept as they are.
pub proof fn cleaning_forgets_the_old(v: FloodView, now: u64, ip: ClientIp)
    requires
        v.last_clean <= now,
        v.hits.contains_key(ip) ==> v.hits[ip].1 <= now,
    ensures
        now - v.last_clean <= 10_000_000_000 ==> v.cleaned(now) == v,
        now - v.last_clean > 10_000_000_000 ==> v.cleaned(now).last_clean == now,
        now - v.last_clean > 10_000_000_000 ==> (v.cleaned(now).hits.contains_key(ip) <==> v.hits.contains_key(ip)
            && now < v.hits[ip].1 + 10_000_000_000),
        v.cleaned(now).hits.contains_key(ip) ==> v.cleaned(now).hits[ip] == v.hits[ip],
        now - v.last_clean > 10_000_000_000 ==> (v.cleaned(now).blocks.contains_key(ip) <==> v.blocks.contains_key(ip)
            && now < v.blocks[ip]),
        v.cleaned(now).blocks.contains_key(ip) ==> v.cleaned(now).blocks[ip] == v.blocks[ip],
        v.cleaned(now).blocked(ip, now) == v.blocked(ip, now),
{
}

/// A client that comes again is counted once more, less one for each second that it stayed away; but it is
/// never counted less than once, and after ten seconds as if it had not come before.
pub proof fn seconds_make_up(count: u8, since: u64, now: u64, away: int)
    requires
        1 <= count <= 10,
        since <= now,
        away == (now - since) / 1_000_000_000,
    ensures
        away < count ==> next_count(count, since, now) == count + 1 - away,
        away >= count ==> next_count(count, since, now) == 1,
        now == since ==> next_count(count, since, now) == count + 1,
{
}

/// The addresses that are read are had in their usual form, in order, without what is no address.
pub proof fn read_addresses_are_had(
    read: &Vec<Option<ClientIp>>,
    r: Vec<ClientIp>,
    before: Seq<Option<ClientIp>>,
    ip: ClientIp,
    after: Seq<Option<ClientIp>>,
    usual: ClientIp,
)
    requires
        call_ensures(usual_addresses, (read,), r),
        call_ensures(ClientIp::usual, (&ip,), usual),
        read@ == before + seq![Some(ip)] + after || read@ == before + seq![Some(ip), None] + after,
    ensures
        r@ == usual_forms(before) + seq![usual] + usual_forms(after),
{
    addresses_keep_their_order(before + seq![Some(ip)], after, ip);
    addresses_keep_their_order(before, seq![Some(ip)], ip);
    addresses_keep_their_order(before + seq![Some(ip), None], after, ip);
    addresses_keep_their_order(before, seq![Some(ip), None], ip);
    addresses_keep_their_order(seq![Some(ip)], seq![None], ip);
    assert(seq![Some(ip)] + seq![None] =~= seq![Some(ip), None]);
    assert(usual_forms(seq![Some(ip)]) + usual_forms(seq![None]) =~= usual_forms(seq![Some(ip)]));
}

/// A client is told by its address, whatever its port.
pub proof fn client_is_told_by_address(addr: &ClientAddr, r: ClientIp)
    requires
        call_ensures(ClientAddr::ip, (addr,), r),
    ensures
        r == addr.ip,
{
}

} // verus!
