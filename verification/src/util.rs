//! Small helpers that the other modules share.
use vstd::prelude::*;

use crate::digest::{hex_encode, sha1_once};

verus! {

/// The version that this client reports.
pub const CLIENT_VERSION: &'static str = "1.6.4";

/// Pieces of bytes, one after the other.
pub open spec fn joined(pieces: Seq<Seq<u8>>) -> Seq<u8>
    decreases pieces.len(),
{
    if pieces.len() == 0 {
        Seq::empty()
    } else {
        joined(pieces.drop_last()) + pieces.last()
    }
}

/// What a text is signed with: its SHA-1 digest in hexadecimal.
pub open spec fn hash_text(s: Seq<char>) -> Seq<char> {
    crate::digest::hex_seq(crate::digest::sha1_digest(vstd::utf8::encode_utf8(s)))
}

/// The SHA-1 digest of a text, in hexadecimal.
pub fn string_to_hash(str: String) -> (r: String)
    ensures
        r@ == hash_text(str@),
        r@.len() == 40,
{
    let digest = sha1_once(str.as_str().as_bytes());
    hex_encode(digest.as_slice())
}

/// Whether AES is fast here, as far as that could be found out. Where it could not, it is assumed not
/// to be.
pub fn aes_support(detected: Option<bool>) -> (r: bool)
    ensures
        r == (detected == Some(true)),
{
    match detected {
        Some(fast) => fast,
        None => false,
    }
}

/// The cipher suites that this client offers.
#[derive(Clone, Copy, PartialEq, Eq, Structural, Debug)]
pub enum CipherSuite {
    Tls13Aes128,
    Tls13Aes256,
    Tls13ChaCha20,
    EcdsaAes128,
    EcdsaAes256,
    EcdsaChaCha20,
    RsaAes128,
    RsaAes256,
    RsaChaCha20,
}

/// The suites of one key exchange, in order of preference.
pub open spec fn preferred(
    aes: bool,
    aes128: CipherSuite,
    aes256: CipherSuite,
    chacha: CipherSuite,
) -> Seq<CipherSuite> {
    if aes {
        seq![aes128, aes256, chacha]
    } else {
        seq![chacha, aes128, aes256]
    }
}

/// The suites to offer, the best first.
pub open spec fn offered(aes: bool) -> Seq<CipherSuite> {
    preferred(aes, CipherSuite::Tls13Aes128, CipherSuite::Tls13Aes256, CipherSuite::Tls13ChaCha20)
        + preferred(aes, CipherSuite::EcdsaAes128, CipherSuite::EcdsaAes256, CipherSuite::EcdsaChaCha20)
        + preferred(aes, CipherSuite::RsaAes128, CipherSuite::RsaAes256, CipherSuite::RsaChaCha20)
}

/// The cipher suites to offer, the best first. ChaCha20 is preferred when AES acceleration is not
/// available.
pub fn ssl_provider(aes_support: bool) -> (r: Vec<CipherSuite>)
    ensures
        r@ == offered(aes_support),
{
    let suites = if aes_support {
        vec![
            CipherSuite::Tls13Aes128,
            CipherSuite::Tls13Aes256,
            CipherSuite::Tls13ChaCha20,
            CipherSuite::EcdsaAes128,
            CipherSuite::EcdsaAes256,
            CipherSuite::EcdsaChaCha20,
            CipherSuite::RsaAes128,
            CipherSuite::RsaAes256,
            CipherSuite::RsaChaCha20,
        ]
    } else {
        vec![
            CipherSuite::Tls13ChaCha20,
            CipherSuite::Tls13Aes128,
            CipherSuite::Tls13Aes256,
            CipherSuite::EcdsaChaCha20,
            CipherSuite::EcdsaAes128,
            CipherSuite::EcdsaAes256,
            CipherSuite::RsaChaCha20,
            CipherSuite::RsaAes128,
            CipherSuite::RsaAes256,
        ]
    };
    assert(suites@ =~= offered(aes_support));
    suites
}

/// Without AES acceleration, ChaCha20 comes before AES whatever the key exchange; with it, after.
pub proof fn slow_aes_comes_last(aes: bool, i: int, j: int)
    requires
        0 <= i < 9,
        0 <= j < 9,
        (offered(aes)[i] == CipherSuite::Tls13ChaCha20 && (offered(aes)[j] == CipherSuite::Tls13Aes128
            || offered(aes)[j] == CipherSuite::Tls13Aes256)) || (offered(aes)[i]
            == CipherSuite::EcdsaChaCha20 && (offered(aes)[j] == CipherSuite::EcdsaAes128
            || offered(aes)[j] == CipherSuite::EcdsaAes256)) || (offered(aes)[i]
            == CipherSuite::RsaChaCha20 && (offered(aes)[j] == CipherSuite::RsaAes128 || offered(
            aes,
        )[j] == CipherSuite::RsaAes256)),
    ensures
        if aes {
            j < i
        } else {
            i < j
        },
{
}

/// Every suite is offered once, with AES acceleration and without: only the order differs.
pub proof fn acceleration_only_reorders(suite: CipherSuite, aes: bool)
    ensures
        offered(aes).contains(suite),
        offered(aes).no_duplicates(),
{
    let s = offered(aes);
    assert(s.len() == 9);
    assert(s[0] == if aes { CipherSuite::Tls13Aes128 } else { CipherSuite::Tls13ChaCha20 });
    assert(s[1] == if aes { CipherSuite::Tls13Aes256 } else { CipherSuite::Tls13Aes128 });
    assert(s[2] == if aes { CipherSuite::Tls13ChaCha20 } else { CipherSuite::Tls13Aes256 });
    assert(s[3] == if aes { CipherSuite::EcdsaAes128 } else { CipherSuite::EcdsaChaCha20 });
    assert(s[4] == if aes { CipherSuite::EcdsaAes256 } else { CipherSuite::EcdsaAes128 });
    assert(s[5] == if aes { CipherSuite::EcdsaChaCha20 } else { CipherSuite::EcdsaAes256 });
    assert(s[6] == if aes { CipherSuite::RsaAes128 } else { CipherSuite::RsaChaCha20 });
    assert(s[7] == if aes { CipherSuite::RsaAes256 } else { CipherSuite::RsaAes128 });
    assert(s[8] == if aes { CipherSuite::RsaChaCha20 } else { CipherSuite::RsaAes256 });
}

/// A signature is the SHA-1 digest of a text's bytes in forty small hexadecimal digits.
pub proof fn signature_is_the_digest(text: String, r: String)
    requires
        call_ensures(string_to_hash, (text,), r),
    ensures
        r@.len() == 40,
        crate::digest::hex_bytes(r@) == crate::digest::sha1_digest(vstd::utf8::encode_utf8(text@)),
        forall|i: int| 0 <= i < r@.len() ==> '0' <= #[trigger] r@[i] <= '9' || 'a' <= r@[i] <= 'f',
{
    let digest = crate::digest::sha1_digest(vstd::utf8::encode_utf8(text@));
    crate::digest::hex_round_trip(digest);
    assert(r@ == crate::digest::hex_seq(digest));
    assert forall|i: int| 0 <= i < r@.len() implies '0' <= #[trigger] r@[i] <= '9' || 'a' <= r@[i] <= 'f' by {
        let d: nat = if i % 2 == 0 {
            (digest[i / 2] / 16) as nat
        } else {
            (digest[i / 2] % 16) as nat
        };
        assert(d < 16);
        assert(r@[i] == crate::digest::hex_char(d));
    }
}

/// What is offered to clients is what suits this machine: the order depends on whether AES is fast here, and
/// without knowing it is taken not to be.
pub proof fn offer_suits_machine(detected: Option<bool>, fast: bool, r: Vec<CipherSuite>)
    requires
        call_ensures(aes_support, (detected,), fast),
        call_ensures(ssl_provider, (fast,), r),
    ensures
        detected is None ==> !fast,
        detected matches Some(known) ==> fast == known,
        r@.len() == 9,
        !fast ==> r@[0] == CipherSuite::Tls13ChaCha20,
        fast ==> r@[0] == CipherSuite::Tls13Aes128,
{
}

/// Pieces one after the other are as long as all of them together, and two rows of pieces are joined one
/// behind the other.
pub proof fn pieces_follow_each_other(a: Seq<Seq<u8>>, b: Seq<Seq<u8>>, piece: Seq<u8>)
    ensures
        joined(a + b) == joined(a) + joined(b),
        joined(seq![piece]) == piece,
    decreases b.len(),
{
    assert(seq![piece].drop_last() =~= Seq::empty());
    assert(joined(Seq::<Seq<u8>>::empty()) =~= Seq::empty());
    assert(joined(seq![piece]) =~= piece);
    if b.len() == 0 {
        assert(a + b =~= a);
        assert(joined(a) + joined(b) =~= joined(a));
    } else {
        pieces_follow_each_other(a, b.drop_last(), piece);
        assert((a + b).drop_last() =~= a + b.drop_last());
        assert(joined(a + b) =~= joined(a) + joined(b));
    }
}

} // verus!
