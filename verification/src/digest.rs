//! Hexadecimal text and SHA-1 digests, which name every cached file and sign every request.
use vstd::array::array_as_slice;
use vstd::prelude::*;
use vstd::string::*;

verus! {

/// The hexadecimal digit of a number below sixteen, in small letters.
pub open spec fn hex_char(d: nat) -> char {
    if d < 10 {
        ('0' as int + d) as char
    } else {
        ('a' as int + (d - 10)) as char
    }
}

/// The value of a hexadecimal digit of either case.
pub open spec fn hex_value(c: char) -> Option<nat> {
    if '0' <= c <= '9' {
        Some((c as int - '0' as int) as nat)
    } else if 'a' <= c <= 'f' {
        Some((c as int - 'a' as int + 10) as nat)
    } else if 'A' <= c <= 'F' {
        Some((c as int - 'A' as int + 10) as nat)
    } else {
        None
    }
}

/// Two digits for each byte, the high half first.
pub open spec fn hex_seq(data: Seq<u8>) -> Seq<char> {
    Seq::new(
        2 * data.len(),
        |i: int|
            hex_char(
                if i % 2 == 0 {
                    (data[i / 2] / 16) as nat
                } else {
                    (data[i / 2] % 16) as nat
                },
            ),
    )
}

/// Whether a text is `n` bytes in hexadecimal.
pub open spec fn is_hex(s: Seq<char>, n: nat) -> bool {
    &&& s.len() == 2 * n
    &&& forall|i: int| 0 <= i < s.len() ==> hex_value(#[trigger] s[i]) is Some
}

/// The bytes that a hexadecimal text stands for.
pub open spec fn hex_bytes(s: Seq<char>) -> Seq<u8> {
    Seq::new(
        s.len() / 2,
        |i: int| (16 * hex_value(s[2 * i]).unwrap() + hex_value(s[2 * i + 1]).unwrap()) as u8,
    )
}

/// `hex::encode`: two small hexadecimal digits for each byte.
#[verifier::external_body]
pub(crate) fn hex_encode(data: &[u8]) -> (r: String)
    ensures
        r@ == hex_seq(data@),
{
    hex::encode(data)
}

/// `const_hex::encode`: two small hexadecimal digits for each byte.
#[verifier::external_body]
pub(crate) fn const_hex_encode(data: &[u8]) -> (r: String)
    ensures
        r@ == hex_seq(data@),
{
    const_hex::encode(data)
}

/// `from_hex` of `hex::FromHex` for twenty bytes: it reads exactly forty hexadecimal digits of
/// either case, and refuses every other text.
#[verifier::external_body]
pub(crate) fn hex_decode_hash(text: &str) -> (r: Option<[u8; 20]>)
    ensures
        r is Some <==> is_hex(text@, 20),
        r matches Some(bytes) ==> bytes@ == hex_bytes(text@),
{
    <[u8; 20] as hex::FromHex>::from_hex(text).ok()
}

/// The SHA-1 digest of some bytes.
pub uninterp spec fn sha1_digest(data: Seq<u8>) -> Seq<u8>;

/// `aws_lc_rs::digest::digest` with its SHA-1 algorithm: twenty bytes that depend on the data
/// alone.
#[verifier::external_body]
pub(crate) fn sha1_once(data: &[u8]) -> (r: Vec<u8>)
    ensures
        r@ == sha1_digest(data@),
        r@.len() == 20,
{
    aws_lc_rs::digest::digest(&aws_lc_rs::digest::SHA1_FOR_LEGACY_USE_ONLY, data).as_ref().to_vec()
}

/// The running digest of `aws_lc_rs`, opaque here but for `context_bytes`.
#[verifier::external_type_specification]
#[verifier::external_body]
pub struct ExContext(aws_lc_rs::digest::Context);

/// The bytes that a running digest of `aws_lc_rs` has been fed.
pub uninterp spec fn context_bytes(context: aws_lc_rs::digest::Context) -> Seq<u8>;

/// More bytes than any digest here takes.
pub const DIGEST_LIMIT: u64 = 0x1000_0000_0000_0000;

/// `aws_lc_rs::digest::Context::new` with the SHA-1 algorithm: a running digest of nothing yet.
#[verifier::external_body]
pub(crate) fn context_new() -> (r: aws_lc_rs::digest::Context)
    ensures
        context_bytes(r) == Seq::<u8>::empty(),
{
    aws_lc_rs::digest::Context::new(&aws_lc_rs::digest::SHA1_FOR_LEGACY_USE_ONLY)
}

/// `aws_lc_rs::digest::Context::update`: feeds the data. It panics on more input than SHA-1 takes,
/// which the limit keeps out.
#[verifier::external_body]
pub(crate) fn context_update(context: &mut aws_lc_rs::digest::Context, data: &[u8])
    requires
        context_bytes(*old(context)).len() + data@.len() < DIGEST_LIMIT,
    ensures
        context_bytes(*final(context)) == context_bytes(*old(context)) + data@,
{
    context.update(data)
}

/// `aws_lc_rs::digest::Context::finish`: the digest of all that was fed, the same as `digest` of
/// it.
#[verifier::external_body]
pub(crate) fn context_finish(context: aws_lc_rs::digest::Context) -> (r: Vec<u8>)
    ensures
        r@ == sha1_digest(context_bytes(context)),
        r@.len() == 20,
{
    context.finish().as_ref().to_vec()
}

/// A running digest of the `sha1` crate. It holds that crate's hasher, and is known here only by
/// the bytes fed to it.
#[verifier::external_body]
pub struct Hasher {
    inner: sha1::Sha1,
}

/// The bytes that a running digest of the `sha1` crate has been fed.
pub uninterp spec fn hasher_bytes(hasher: Hasher) -> Seq<u8>;

/// `new` of `sha1::Digest` for `sha1::Sha1`: a running digest of nothing yet.
#[verifier::external_body]
pub(crate) fn hasher_new() -> (r: Hasher)
    ensures
        hasher_bytes(r) == Seq::<u8>::empty(),
{
    Hasher { inner: <sha1::Sha1 as sha1::Digest>::new() }
}

/// `update` of `sha1::Digest`: feeds the data. The bit count overflows on more input than SHA-1
/// takes, which the limit keeps out.
#[verifier::external_body]
pub(crate) fn hasher_update(hasher: &mut Hasher, data: &[u8])
    requires
        hasher_bytes(*old(hasher)).len() + data@.len() < DIGEST_LIMIT,
    ensures
        hasher_bytes(*final(hasher)) == hasher_bytes(*old(hasher)) + data@,
{
    sha1::Digest::update(&mut hasher.inner, data)
}

/// `finalize` of `sha1::Digest` for `sha1::Sha1`: the SHA-1 digest of all that was fed, the same that
/// `aws_lc_rs` computes.
#[verifier::external_body]
pub(crate) fn hasher_finalize(hasher: Hasher) -> (r: [u8; 20])
    ensures
        r@ == sha1_digest(hasher_bytes(hasher)),
{
    sha1::Digest::finalize(hasher.inner).into()
}

/// The running digest of `openssl`, opaque here but for `openssl_bytes`.
#[verifier::external_type_specification]
#[verifier::external_body]
pub struct ExSha1(openssl::sha::Sha1);

/// The bytes that a running digest of `openssl` has been fed.
pub uninterp spec fn openssl_bytes(hasher: openssl::sha::Sha1) -> Seq<u8>;

/// `openssl::sha::Sha1::new`: a running digest of nothing yet.
#[verifier::external_body]
pub(crate) fn openssl_new() -> (r: openssl::sha::Sha1)
    ensures
        openssl_bytes(r) == Seq::<u8>::empty(),
{
    openssl::sha::Sha1::new()
}

/// `openssl::sha::Sha1::update`: feeds the data, within the length that SHA-1 takes.
#[verifier::external_body]
pub(crate) fn openssl_update(hasher: &mut openssl::sha::Sha1, data: &[u8])
    requires
        openssl_bytes(*old(hasher)).len() + data@.len() < DIGEST_LIMIT,
    ensures
        openssl_bytes(*final(hasher)) == openssl_bytes(*old(hasher)) + data@,
{
    hasher.update(data)
}

/// `openssl::sha::Sha1::finish`: the SHA-1 digest of all that was fed, the same that `aws_lc_rs`
/// computes.
#[verifier::external_body]
pub(crate) fn openssl_finish(hasher: openssl::sha::Sha1) -> (r: [u8; 20])
    ensures
        r@ == sha1_digest(openssl_bytes(hasher)),
{
    hasher.finish()
}

/// Whether two rows of bytes are the same.
pub fn same_bytes(a: &[u8], b: &[u8]) -> (r: bool)
    ensures
        r == (a@ == b@),
{
    if a.len() != b.len() {
        return false;
    }
    for i in 0..a.len()
        invariant
            a@.len() == b@.len(),
            forall|j: int| 0 <= j < i ==> a@[j] == b@[j],
    {
        if a[i] != b[i] {
            return false;
        }
    }
    assert(a@ =~= b@);
    true
}

/// Whether two digests are the same.
pub fn same_hash(a: &[u8; 20], b: &[u8; 20]) -> (r: bool)
    ensures
        r == (a@ == b@),
{
    same_bytes(array_as_slice(a), array_as_slice(b))
}

/// Bytes written in hexadecimal read back as those bytes.
pub proof fn hex_round_trip(data: Seq<u8>)
    ensures
        is_hex(hex_seq(data), data.len()),
        hex_bytes(hex_seq(data)) == data,
{
    let s = hex_seq(data);
    assert forall|i: int| 0 <= i < s.len() implies hex_value(#[trigger] s[i]) is Some by {}
    assert forall|i: int| 0 <= i < data.len() implies hex_bytes(s)[i] == data[i] by {
        assert((2 * i) % 2 == 0 && (2 * i) / 2 == i);
        assert((2 * i + 1) % 2 == 1 && (2 * i + 1) / 2 == i);
        assert(hex_value(s[2 * i]) == Some((data[i] / 16) as nat));
        assert(hex_value(s[2 * i + 1]) == Some((data[i] % 16) as nat));
    }
    assert(hex_bytes(s) =~= data);
}

/// A hexadecimal text in small letters is the text of its bytes.
pub proof fn hex_text_of_bytes(s: Seq<char>, n: nat)
    requires
        is_hex(s, n),
        crate::text::ascii_lower_seq(s) == s,
    ensures
        hex_seq(hex_bytes(s)) == s,
{
    let t = hex_seq(hex_bytes(s));
    assert forall|i: int| 0 <= i < s.len() implies t[i] == s[i] by {
        let k = i / 2;
        assert(crate::text::ascii_lower_seq(s)[i] == s[i]);
        assert(hex_value(s[2 * k]) is Some);
        assert(hex_value(s[2 * k + 1]) is Some);
        let high = hex_value(s[2 * k]).unwrap();
        let low = hex_value(s[2 * k + 1]).unwrap();
        assert(hex_bytes(s)[k] == 16 * high + low);
        assert(hex_bytes(s)[k] / 16 == high && hex_bytes(s)[k] % 16 == low);
    }
    assert(t =~= s);
}

/// A digit has the same value in both cases, values go from zero to fifteen, and a digit that is written is
/// read again.
pub proof fn digits_have_one_value(c: char, n: nat)
    ensures
        'A' <= c <= 'F' ==> hex_value(c) == hex_value((c as int + 32) as char) && hex_value(c) is Some,
        hex_value(c) matches Some(v) ==> v < 16,
        n < 16 ==> hex_value(hex_char(n)) == Some(n),
        '0' <= c <= '9' || 'a' <= c <= 'f' || 'A' <= c <= 'F' <==> hex_value(c) is Some,
{
}

} // verus!
