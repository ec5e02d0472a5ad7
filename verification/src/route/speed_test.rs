//! The test by which the server measures how fast this client is.
use vstd::prelude::*;
use vstd::slice::slice_subrange;
use vstd::string::*;

use crate::text::{push_i64, push_u64, same_text};
use crate::util::string_to_hash;

verus! {

/// How far the time of a test may be off, in seconds.
pub const MAX_KEY_TIME_DRIFT: i64 = 300;

/// The longest piece of a test.
pub const PIECE: usize = 8192;

/// What a test is signed with.
pub open spec fn test_text(size: nat, time: int, id: int, key: Seq<char>) -> Seq<char> {
    "hentai@home-speedtest-"@ + crate::text::decimal(size) + "-"@ + crate::text::decimal_int(time)
        + "-"@ + crate::text::decimal_int(id) + "-"@ + key
}

/// Whether a test is allowed: its time is near, and its signature is right.
pub fn speedtest(size: u64, time: i64, hash: &str, now: i64, id: i32, key: &str) -> (r: bool)
    ensures
        r == (-MAX_KEY_TIME_DRIFT <= now - time <= MAX_KEY_TIME_DRIFT && hash@
            == crate::util::hash_text(test_text(size as nat, time as int, id as int, key@))),
{
    let mut text = "hentai@home-speedtest-".to_owned();
    push_u64(&mut text, size);
    text.append("-");
    push_i64(&mut text, time);
    text.append("-");
    push_i64(&mut text, id as i64);
    text.append("-");
    text.append(key);
    let diff: i128 = now as i128 - time as i128;
    let signature = string_to_hash(text);
    -(MAX_KEY_TIME_DRIFT as i128) <= diff && diff <= MAX_KEY_TIME_DRIFT as i128 && same_text(
        signature.as_str(),
        hash,
    )
}

/// `fill_bytes` of `rand::RngCore` on a `rand::rngs::SmallRng` that was seeded by the system: as many
/// bytes as were asked for. What they are is left to chance.
#[verifier::external_body]
fn random_bytes(n: usize) -> (r: Vec<u8>)
    ensures
        r@.len() == n,
{
    let mut bytes = vec![0; n];
    let mut rng = <rand::rngs::SmallRng as rand::SeedableRng>::from_entropy();
    rand::RngCore::fill_bytes(&mut rng, &mut bytes);
    bytes
}

/// The content of a test: the same random piece over and over.
pub struct RandomResponse {
    buffer: Vec<u8>,
    filled: u64,
    size: u64,
}

/// The length of the piece that follows when so much is still missing.
pub open spec fn piece_len(left: int) -> int {
    if left < PIECE {
        left
    } else {
        PIECE as int
    }
}

impl RandomResponse {
    /// How many bytes were sent, and how many there are.
    pub closed spec fn sent(&self) -> (u64, u64) {
        (self.filled, self.size)
    }

    /// The piece that is sent.
    pub closed spec fn piece(&self) -> Seq<u8> {
        self.buffer@
    }

    /// No more is sent than there is.
    pub open spec fn wf(&self) -> bool {
        self.sent().0 <= self.sent().1 && self.piece().len() == PIECE
    }

    /// A test of so many bytes.
    pub fn random_response(size: u64) -> (r: RandomResponse)
        ensures
            r.wf(),
            r.sent() == (0u64, size),
    {
        RandomResponse { buffer: random_bytes(PIECE), filled: 0, size }
    }

    /// The next piece, `None` at the end.
    pub fn next_piece(&mut self) -> (r: Option<Vec<u8>>)
        requires
            old(self).wf(),
        ensures
            final(self).wf(),
            final(self).piece() == old(self).piece(),
            final(self).sent().1 == old(self).sent().1,
            match r {
                Some(bytes) => {
                    let n = piece_len(old(self).sent().1 - old(self).sent().0);
                    &&& n > 0
                    &&& bytes@ == old(self).piece().take(n)
                    &&& final(self).sent().0 == old(self).sent().0 + n
                },
                None => old(self).sent().0 == old(self).sent().1 && final(self).sent() == old(
                    self,
                ).sent(),
            },
    {
        if self.filled >= self.size {
            return None;
        }
        let left: u64 = self.size - self.filled;
        let n: usize = if left < PIECE as u64 { left as usize } else { PIECE };
        let piece = slice_subrange(self.buffer.as_slice(), 0, n);
        let mut bytes: Vec<u8> = Vec::new();
        bytes.extend_from_slice(piece);
        assert(bytes@ =~= self.buffer@.take(n as int));
        self.filled = self.filled + n as u64;
        Some(bytes)
    }
}

/// How many bytes the first pieces of a test of some size make up.
pub open spec fn bytes_of(pieces: nat, size: int) -> int
    decreases pieces,
{
    if pieces == 0 {
        0
    } else {
        let before = bytes_of((pieces - 1) as nat, size);
        before + piece_len(size - before)
    }
}

/// The pieces of a test are full until its size is reached, and make up exactly its size.
pub proof fn pieces_make_up_size(pieces: nat, size: nat)
    ensures
        bytes_of(pieces, size as int) == if pieces * PIECE < size {
            pieces * PIECE
        } else {
            size as int
        },
    decreases pieces,
{
    if pieces > 0 {
        pieces_make_up_size((pieces - 1) as nat, size);
        assert((pieces - 1) * PIECE == pieces * PIECE - PIECE) by (nonlinear_arith);
    }
}

/// A test is signed with five pieces and hyphens between them: two fixed words, its size, its time, the number
/// of this client and the secret. It is allowed for five minutes before and after its time, and only with the
/// right signature.
pub proof fn test_needs_right_signature(size: u64, time: i64, hash: &str, now: i64, id: i32, key: &str, r: bool)
    requires
        call_ensures(speedtest, (size, time, hash, now, id, key), r),
    ensures
        r <==> -300 <= now - time <= 300 && hash@ == crate::util::hash_text(
            crate::text::join_seq(
                seq![
                    "hentai@home"@,
                    "speedtest"@,
                    crate::text::decimal(size as nat),
                    crate::text::decimal_int(time as int),
                    crate::text::decimal_int(id as int),
                    key@,
                ],
                seq!['-'],
            ),
        ),
{
    reveal_strlit("hentai@home");
    reveal_strlit("speedtest");
    reveal_strlit("hentai@home-speedtest-");
    reveal_strlit("-");
    let a = crate::text::decimal(size as nat);
    let b = crate::text::decimal_int(time as int);
    let c = crate::text::decimal_int(id as int);
    let x = "hentai@home"@;
    let y = "speedtest"@;
    let parts = seq![x, y, a, b, c, key@];
    reveal_with_fuel(crate::text::join_seq, 7);
    assert(parts.drop_last() =~= seq![x, y, a, b, c]);
    assert(parts.drop_last().drop_last() =~= seq![x, y, a, b]);
    assert(parts.drop_last().drop_last().drop_last() =~= seq![x, y, a]);
    assert(parts.drop_last().drop_last().drop_last().drop_last() =~= seq![x, y]);
    assert(parts.drop_last().drop_last().drop_last().drop_last().drop_last() =~= seq![x]);
    assert(test_text(size as nat, time as int, id as int, key@) =~= crate::text::join_seq(parts, seq!['-']));
}

/// Tests that differ in one piece are signed differently: in the size, the time, the number or the secret.
pub proof fn signed_tests_differ(size: nat, time: int, id: int, key: Seq<char>, other: int, word: Seq<char>)
    ensures
        other >= 0 && test_text(size, time, id, key) == test_text(other as nat, time, id, key) ==> size == other,
        test_text(size, time, id, key) == test_text(size, other, id, key) ==> time == other,
        test_text(size, time, id, key) == test_text(size, time, other, key) ==> id == other,
        test_text(size, time, id, key) == test_text(size, time, id, word) ==> key == word,
{
    let x = "hentai@home-speedtest-"@;
    let s = "-"@;
    let a = crate::text::decimal(size);
    let b = crate::text::decimal_int(time);
    let c = crate::text::decimal_int(id);
    let d = crate::text::decimal_int(other);
    let whole = test_text(size, time, id, key);
    assert(whole =~= x + a + (s + b + s + c + s + key));
    assert(whole =~= x + a + s + b + (s + c + s + key));
    assert(whole =~= x + a + s + b + s + c + (s + key));
    assert(whole =~= x + a + s + b + s + c + s + key + Seq::empty());
    if other >= 0 {
        assert(test_text(other as nat, time, id, key) =~= x + d + (s + b + s + c + s + key));
        crate::text::middle_is_told(x, a, d, s + b + s + c + s + key);
        crate::text::numbers_are_written_once(size, other as nat, 0);
    }
    assert(test_text(size, other, id, key) =~= x + a + s + d + (s + c + s + key));
    crate::text::middle_is_told(x + a + s, b, d, s + c + s + key);
    crate::text::integers_are_written_once(time, other);
    assert(test_text(size, time, other, key) =~= x + a + s + b + s + d + (s + key));
    crate::text::middle_is_told(x + a + s + b + s, c, d, s + key);
    crate::text::integers_are_written_once(id, other);
    assert(test_text(size, time, id, word) =~= x + a + s + b + s + c + s + word + Seq::empty());
    crate::text::middle_is_told(x + a + s + b + s + c + s, key, word, Seq::empty());
}

/// The pieces of a test are never empty and never longer than eight kilobytes, and end exactly when as many
/// bytes were sent as were asked for.
pub proof fn test_sends_its_size(size: u64, start: RandomResponse, t: &mut RandomResponse, r: Option<Vec<u8>>)
    requires
        call_ensures(RandomResponse::random_response, (size,), start),
        call_ensures(RandomResponse::next_piece, (t,), r),
        old(t).wf(),
    ensures
        start.sent() == (0u64, size),
        r is None <==> old(t).sent().0 == old(t).sent().1,
        r matches Some(bytes) ==> 1 <= bytes@.len() <= 8 * 1024 && final(t).sent().0 == old(t).sent().0
            + bytes@.len() && (bytes@.len() < 8 * 1024 ==> final(t).sent().0 == final(t).sent().1),
        final(t).sent().1 == old(t).sent().1,
        final(t).sent().0 <= final(t).sent().1,
{
}

} // verus!
