//! PKCS #12 files. A file is looked over before it is opened: what would stop the client, or keep it
//! busy for ever, is not opened.
use vstd::prelude::*;
use vstd::slice::slice_subrange;

use crate::digest::same_bytes;
use crate::text::chars_of;

verus! {

/// The tags of the elements that such a file is made of.
pub const INTEGER: u8 = 0x02;

pub const OCTETS: u8 = 0x04;

pub const OBJECT: u8 = 0x06;

pub const SEQUENCE: u8 = 0x30;

pub const SET: u8 = 0x31;

pub const WRAPPED: u8 = 0xA0;

/// How often a password may be hashed. A file that asks for more would keep a machine busy for
/// centuries; it is not opened.
pub const MAX_ROUNDS: u64 = 0x00FF_FFFF_FFFF_FFFF;

/// Plain data.
pub open spec fn data_oid() -> Seq<u8> {
    seq![0x2A, 0x86, 0x48, 0x86, 0xF7, 0x0D, 0x01, 0x07, 0x01]
}

/// Encrypted data.
pub open spec fn encrypted_oid() -> Seq<u8> {
    seq![0x2A, 0x86, 0x48, 0x86, 0xF7, 0x0D, 0x01, 0x07, 0x06]
}

/// The SHA-1 digest.
pub open spec fn sha1_oid() -> Seq<u8> {
    seq![0x2B, 0x0E, 0x03, 0x02, 0x1A]
}

/// Encryption with Triple DES under a password.
pub open spec fn triple_des_oid() -> Seq<u8> {
    seq![0x2A, 0x86, 0x48, 0x86, 0xF7, 0x0D, 0x01, 0x0C, 0x01, 0x03]
}

/// Encryption with RC2 under a password.
pub open spec fn rc2_oid() -> Seq<u8> {
    seq![0x2A, 0x86, 0x48, 0x86, 0xF7, 0x0D, 0x01, 0x0C, 0x01, 0x06]
}

/// A key that is encrypted under a password.
pub open spec fn shrouded_key_oid() -> Seq<u8> {
    seq![0x2A, 0x86, 0x48, 0x86, 0xF7, 0x0D, 0x01, 0x0C, 0x0A, 0x01, 0x02]
}

/// A certificate.
pub open spec fn certificate_oid() -> Seq<u8> {
    seq![0x2A, 0x86, 0x48, 0x86, 0xF7, 0x0D, 0x01, 0x0C, 0x0A, 0x01, 0x03]
}

/// A name for people.
pub open spec fn friendly_name_oid() -> Seq<u8> {
    seq![0x2A, 0x86, 0x48, 0x86, 0xF7, 0x0D, 0x01, 0x09, 0x14]
}

/// The number of a key.
pub open spec fn local_key_oid() -> Seq<u8> {
    seq![0x2A, 0x86, 0x48, 0x86, 0xF7, 0x0D, 0x01, 0x09, 0x15]
}

/// The number that some bytes stand for, the highest first.
pub open spec fn number(s: Seq<u8>) -> nat
    decreases s.len(),
{
    if s.len() == 0 {
        0
    } else {
        number(s.drop_last()) * 256 + s.last() as nat
    }
}

/// Where a tag of more than one byte ends: its last byte is the first one without the high bit.
pub open spec fn long_tag_end(s: Seq<u8>, i: int) -> Option<int>
    decreases s.len() - i,
{
    if i >= s.len() {
        None
    } else if s[i] < 128 {
        Some(i + 1)
    } else {
        long_tag_end(s, i + 1)
    }
}

/// Where the tag at the beginning of some bytes ends.
pub open spec fn tag_end(s: Seq<u8>) -> Option<int> {
    if s.len() == 0 {
        None
    } else if s[0] % 32 != 31 {
        Some(1)
    } else {
        long_tag_end(s, 1)
    }
}

/// The element at the beginning of some bytes: the first byte of its tag, and where its content starts
/// and ends. `None` if the bytes end too early.
pub open spec fn element(s: Seq<u8>) -> Option<(u8, int, int)> {
    match tag_end(s) {
        Some(t) if t < s.len() => {
            let b = s[t];
            if b < 128 {
                if t + 1 + b <= s.len() {
                    Some((s[0], t + 1, t + 1 + b))
                } else {
                    None
                }
            } else if b == 128 || b == 255 {
                None
            } else {
                let start = t + 1 + (b - 128);
                if start <= s.len() && start + number(s.subrange(t + 1, start)) <= s.len() {
                    Some((s[0], start, start + number(s.subrange(t + 1, start)) as int))
                } else {
                    None
                }
            }
        },
        _ => None,
    }
}

/// The content of the element at the beginning of some bytes, if it has the tag, and what follows it.
pub open spec fn part(s: Seq<u8>, tag: u8) -> Option<(Seq<u8>, Seq<u8>)> {
    match element(s) {
        Some((t, start, end)) if t == tag => Some((s.subrange(start, end), s.skip(end))),
        _ => None,
    }
}

/// The elements that some bytes are made of, each with its tag and its length.
pub open spec fn elements(s: Seq<u8>) -> Option<Seq<Seq<u8>>>
    decreases s.len(),
{
    if s.len() == 0 {
        Some(Seq::empty())
    } else {
        match element(s) {
            Some((_, _, end)) if 0 < end <= s.len() => match elements(s.skip(end)) {
                Some(rest) => Some(seq![s.take(end)] + rest),
                None => None,
            },
            _ => None,
        }
    }
}

/// Whether the description of an algorithm can be read, and asks for few enough rounds where they
/// are run.
pub open spec fn algorithm_safe(s: Seq<u8>, run: bool) -> bool {
    match part(s, OBJECT) {
        None => false,
        Some((oid, rest)) => if oid == sha1_oid() {
            true
        } else if oid == rc2_oid() || oid == triple_des_oid() {
            match part(rest, SEQUENCE) {
                None => false,
                Some((params, _)) => match part(params, OCTETS) {
                    None => false,
                    Some((_, rest)) => match part(rest, INTEGER) {
                        None => false,
                        Some((rounds, _)) => !run || number(rounds) <= MAX_ROUNDS,
                    },
                },
            }
        } else {
            rest.len() == 0 || element(rest) is Some
        },
    }
}

/// Whether encrypted data can be read: its version is zero, and it holds plain data.
pub open spec fn encrypted_safe(s: Seq<u8>) -> bool {
    match part(s, SEQUENCE) {
        None => false,
        Some((data, _)) => match part(data, INTEGER) {
            None => false,
            Some((version, rest)) => version == seq![0u8] && match part(rest, SEQUENCE) {
                None => false,
                Some((info, _)) => match part(info, OBJECT) {
                    None => false,
                    Some((kind, rest)) => kind == data_oid() && match part(rest, SEQUENCE) {
                        None => false,
                        Some((algorithm, _)) => algorithm_safe(algorithm, true),
                    },
                },
            },
        },
    }
}

/// Whether a piece of content can be read.
pub open spec fn content_safe(s: Seq<u8>) -> bool {
    match part(s, SEQUENCE) {
        None => false,
        Some((info, _)) => match part(info, OBJECT) {
            None => false,
            Some((oid, rest)) => match part(rest, WRAPPED) {
                None => false,
                Some((inner, _)) => if oid == data_oid() {
                    true
                } else if oid == encrypted_oid() {
                    encrypted_safe(inner)
                } else {
                    element(inner) is Some
                },
            },
        },
    }
}

/// Whether the seal of a file can be read, if it has one.
pub open spec fn seal_safe(s: Seq<u8>) -> bool {
    s.len() == 0 || match part(s, SEQUENCE) {
        None => false,
        Some((seal, _)) => match part(seal, SEQUENCE) {
            None => false,
            Some((digest, _)) => match part(digest, SEQUENCE) {
                None => false,
                Some((algorithm, _)) => algorithm_safe(algorithm, false),
            },
        },
    }
}

/// The content of a file, as an element, if the file can be read.
pub open spec fn file_content(s: Seq<u8>) -> Option<Seq<u8>> {
    match part(s, SEQUENCE) {
        None => None,
        Some((file, _)) => match part(file, INTEGER) {
            None => None,
            Some((_, rest)) => match element(rest) {
                Some((_, _, end)) if content_safe(rest.take(end)) && seal_safe(rest.skip(end)) => Some(
                    rest.take(end),
                ),
                _ => None,
            },
        },
    }
}

/// Whether something that is noted of a key or a certificate can be read.
pub open spec fn attribute_safe(s: Seq<u8>) -> bool {
    match part(s, SEQUENCE) {
        None => false,
        Some((attribute, _)) => match part(attribute, OBJECT) {
            None => false,
            Some((oid, rest)) => match part(rest, SET) {
                None => false,
                Some((values, _)) => oid == friendly_name_oid() || oid == local_key_oid() || elements(
                    values,
                ) is Some,
            },
        },
    }
}

/// Whether all that is noted of a key or a certificate can be read, if there is anything.
pub open spec fn attributes_safe(s: Seq<u8>) -> bool {
    s.len() == 0 || match part(s, SET) {
        None => false,
        Some((set, _)) => elements(set) matches Some(list) && all_attributes_safe(list),
    }
}

/// Whether each of some notes can be read.
pub open spec fn all_attributes_safe(list: Seq<Seq<u8>>) -> bool {
    forall|i: int| 0 <= i < list.len() ==> attribute_safe(#[trigger] list[i])
}

/// Whether the value of a bag can be read, by its kind.
pub open spec fn value_safe(oid: Seq<u8>, value: Seq<u8>) -> bool {
    if oid == certificate_oid() {
        true
    } else if oid == shrouded_key_oid() {
        match part(value, SEQUENCE) {
            None => false,
            Some((info, _)) => match part(info, SEQUENCE) {
                None => false,
                Some((algorithm, _)) => algorithm_safe(algorithm, true),
            },
        }
    } else {
        element(value) is Some
    }
}

/// Whether a bag, with a key, a certificate or something else, can be read.
pub open spec fn bag_safe(s: Seq<u8>) -> bool {
    match part(s, SEQUENCE) {
        None => false,
        Some((bag, _)) => match part(bag, OBJECT) {
            None => false,
            Some((oid, rest)) => match part(rest, WRAPPED) {
                None => false,
                Some((value, attributes)) => value_safe(oid, value) && attributes_safe(attributes),
            },
        },
    }
}

/// Whether some bags can be read.
pub open spec fn bags_safe(s: Seq<u8>) -> bool {
    match part(s, SEQUENCE) {
        None => false,
        Some((bags, _)) => elements(bags) matches Some(list) && all_bags_safe(list),
    }
}

/// Whether each of some bags can be read.
pub open spec fn all_bags_safe(list: Seq<Seq<u8>>) -> bool {
    forall|i: int| 0 <= i < list.len() ==> bag_safe(#[trigger] list[i])
}

/// What a piece of content holds under a password, `None` if that cannot be told.
pub uninterp spec fn content_opened(content: Seq<u8>, password: Seq<u8>) -> Option<Seq<u8>>;

/// The bytes of an optional row.
pub open spec fn opt_bytes(r: Option<Vec<u8>>) -> Option<Seq<u8>> {
    match r {
        Some(bytes) => Some(bytes@),
        None => None,
    }
}

/// `p12::ContentInfo::from_der`, and `data` of what it read. The result depends on the content and the
/// password alone. Debug assertions of the crate stop the program on encrypted data of another version
/// or kind, its reader on an element whose length goes beyond the address space, and decryption takes
/// as many rounds as the content asks for: content that was looked over has none of these.
#[verifier::external_body]
fn open_content(content: &[u8], password: &[u8]) -> (r: Option<Vec<u8>>)
    requires
        content_safe(content@),
    ensures
        opt_bytes(r) == content_opened(content@, password@),
{
    p12::ContentInfo::from_der(content).ok()?.data(password)
}

/// Two bytes for each half of a character's code, the high one first.
pub open spec fn unit_bytes(unit: int) -> Seq<u8> {
    seq![(unit / 256) as u8, (unit % 256) as u8]
}

/// A character in UTF-16: one half, or two of them for a character beyond the first 65536.
pub open spec fn char_bytes(c: char) -> Seq<u8> {
    let code = c as int;
    if code < 0x1_0000 {
        unit_bytes(code)
    } else {
        unit_bytes(0xD800 + (code - 0x1_0000) / 0x400) + unit_bytes(0xDC00 + (code - 0x1_0000) % 0x400)
    }
}

/// A text in UTF-16.
pub open spec fn utf16_bytes(s: Seq<char>) -> Seq<u8>
    decreases s.len(),
{
    if s.len() == 0 {
        Seq::empty()
    } else {
        utf16_bytes(s.drop_last()) + char_bytes(s.last())
    }
}

/// A password as such a file takes it: in UTF-16, with two zero bytes at its end.
pub open spec fn password_bytes(s: Seq<char>) -> Seq<u8> {
    utf16_bytes(s) + seq![0u8, 0u8]
}

/// Whether a file can be opened with a password, and what it holds can be read.
pub open spec fn can_be_read(data: Seq<u8>, password: Seq<u8>) -> bool {
    match file_content(data) {
        None => false,
        Some(outer) => match content_opened(outer, password) {
            None => false,
            Some(inner) => match part(inner, SEQUENCE) {
                None => false,
                Some((contents, _)) => elements(contents) matches Some(list) && all_readable(list, password),
            },
        },
    }
}

/// Whether each of some pieces of content can be opened with a password, and its bags can be read.
pub open spec fn all_readable(list: Seq<Seq<u8>>, password: Seq<u8>) -> bool {
    forall|i: int| 0 <= i < list.len() ==> content_readable(#[trigger] list[i], password)
}

/// Whether a piece of content can be opened with a password, and its bags can be read.
pub open spec fn content_readable(content: Seq<u8>, password: Seq<u8>) -> bool {
    content_safe(content) && (content_opened(content, password) matches Some(bags) && bags_safe(bags))
}

/// The private keys in a PKCS #12 file, `None` if it cannot be read with the password.
pub uninterp spec fn p12_keys(data: Seq<u8>, password: Seq<char>) -> Option<Seq<Seq<u8>>>;

/// `p12::PFX::parse` and `key_bags` of what it read. The result depends on the file and the password
/// alone. The file was looked over: it has nothing on which the crate stops the program or does not
/// come to an end.
#[verifier::external_body]
pub(crate) fn read_keys(data: &[u8], password: &str) -> (r: Option<Vec<Vec<u8>>>)
    requires
        can_be_read(data@, password_bytes(password@)),
    ensures
        crate::server::cert::opt_rows(r) == p12_keys(data@, password@),
{
    p12::PFX::parse(data).ok()?.key_bags(password).ok()
}

/// The certificates in a PKCS #12 file, `None` if it cannot be read with the password.
pub uninterp spec fn p12_certs(data: Seq<u8>, password: Seq<char>) -> Option<Seq<Seq<u8>>>;

/// `p12::PFX::parse` and `cert_x509_bags` of what it read. The result depends on the file and the
/// password alone. The file was looked over: it has nothing on which the crate stops the program or
/// does not come to an end.
#[verifier::external_body]
pub(crate) fn read_certs(data: &[u8], password: &str) -> (r: Option<Vec<Vec<u8>>>)
    requires
        can_be_read(data@, password_bytes(password@)),
    ensures
        crate::server::cert::opt_rows(r) == p12_certs(data@, password@),
{
    p12::PFX::parse(data).ok()?.cert_x509_bags(password).ok()
}

proof fn lemma_number_prefix(s: Seq<u8>, i: int)
    requires
        0 <= i <= s.len(),
    ensures
        number(s.take(i)) <= number(s),
    decreases s.len(),
{
    if i < s.len() {
        assert(s.drop_last().take(i) =~= s.take(i));
        lemma_number_prefix(s.drop_last(), i);
    } else {
        assert(s.take(i) =~= s);
    }
}

/// The number that some bytes stand for, if it is no larger than `max`.
fn number_up_to(s: &[u8], max: u64) -> (r: Option<u64>)
    ensures
        match r {
            Some(v) => v == number(s@) && v <= max,
            None => number(s@) > max,
        },
{
    let mut value: u64 = 0;
    for i in 0..s.len()
        invariant
            value == number(s@.take(i as int)),
            value <= max,
    {
        assert(s@.take(i + 1).drop_last() =~= s@.take(i as int));
        proof {
            lemma_number_prefix(s@, i + 1);
        }
        let next: u128 = value as u128 * 256 + s[i] as u128;
        if next > max as u128 {
            return None;
        }
        value = next as u64;
    }
    assert(s@.take(s@.len() as int) =~= s@);
    Some(value)
}

fn find_tag_end(s: &[u8]) -> (r: Option<usize>)
    ensures
        match r {
            Some(t) => tag_end(s@) == Some(t as int) && 1 <= t <= s@.len(),
            None => tag_end(s@) is None,
        },
{
    if s.len() == 0 {
        return None;
    }
    if s[0] % 32 != 31 {
        return Some(1);
    }
    let mut i: usize = 1;
    while i < s.len()
        invariant
            1 <= i <= s@.len(),
            tag_end(s@) == long_tag_end(s@, i as int),
        decreases s@.len() - i,
    {
        if s[i] < 128 {
            return Some(i + 1);
        }
        i = i + 1;
    }
    None
}

fn read_element(s: &[u8]) -> (r: Option<(u8, usize, usize)>)
    ensures
        match r {
            Some((tag, start, end)) => element(s@) == Some((tag, start as int, end as int)) && 2 <= start
                <= end <= s@.len(),
            None => element(s@) is None,
        },
{
    let t = match find_tag_end(s) {
        Some(t) => t,
        None => {
            return None;
        },
    };
    if t >= s.len() {
        return None;
    }
    let b: u8 = s[t];
    if b < 128 {
        let n: usize = b as usize;
        if n <= s.len() - (t + 1) {
            Some((s[0], t + 1, t + 1 + n))
        } else {
            None
        }
    } else if b == 128 || b == 255 {
        None
    } else {
        let octets: usize = (b - 128) as usize;
        if octets > s.len() - (t + 1) {
            return None;
        }
        let start: usize = t + 1 + octets;
        let room: usize = s.len() - start;
        match number_up_to(slice_subrange(s, t + 1, start), room as u64) {
            Some(n) => Some((s[0], start, start + n as usize)),
            None => None,
        }
    }
}

fn read_part<'a>(s: &'a [u8], tag: u8) -> (r: Option<(&'a [u8], &'a [u8])>)
    ensures
        match r {
            Some((content, rest)) => part(s@, tag) == Some((content@, rest@)),
            None => part(s@, tag) is None,
        },
{
    match read_element(s) {
        Some((t, start, end)) => {
            if t != tag {
                return None;
            }
            assert(s@.subrange(end as int, s@.len() as int) =~= s@.skip(end as int));
            Some((slice_subrange(s, start, end), slice_subrange(s, end, s.len())))
        },
        None => None,
    }
}

/// A copy of some bytes.
fn copied(s: &[u8]) -> (r: Vec<u8>)
    ensures
        r@ == s@,
{
    let mut out: Vec<u8> = Vec::new();
    out.extend_from_slice(s);
    assert(out@ =~= s@);
    out
}

fn read_elements(s: &[u8]) -> (r: Option<Vec<Vec<u8>>>)
    ensures
        crate::server::cert::opt_rows(r) == elements(s@),
{
    let mut out: Vec<Vec<u8>> = Vec::new();
    let mut at: usize = 0;
    assert(s@.skip(0) =~= s@);
    assert(crate::server::cert::byte_rows(out@) =~= Seq::empty());
    proof {
        match elements(s@) {
            Some(list) => {
                assert(Seq::<Seq<u8>>::empty() + list =~= list);
            },
            None => {},
        }
    }
    while at < s.len()
        invariant
            at <= s@.len(),
            elements(s@) == match elements(s@.skip(at as int)) {
                Some(list) => Some(crate::server::cert::byte_rows(out@) + list),
                None => None,
            },
        decreases s@.len() - at,
    {
        let rest = slice_subrange(s, at, s.len());
        assert(rest@ =~= s@.skip(at as int));
        match read_element(rest) {
            Some((_, _, end)) => {
                let whole = slice_subrange(rest, 0, end);
                assert(whole@ =~= rest@.take(end as int));
                let ghost before = crate::server::cert::byte_rows(out@);
                out.push(copied(whole));
                assert(crate::server::cert::byte_rows(out@) =~= before.push(whole@));
                assert(s@.skip((at + end) as int) =~= rest@.skip(end as int));
                proof {
                    match elements(rest@.skip(end as int)) {
                        Some(list) => {
                            assert(before + (seq![whole@] + list) =~= before.push(whole@) + list);
                        },
                        None => {},
                    }
                }
                at = at + end;
            },
            None => {
                return None;
            },
        }
    }
    assert(s@.skip(at as int) =~= Seq::empty());
    assert(crate::server::cert::byte_rows(out@) + Seq::<Seq<u8>>::empty() =~= crate::server::cert::byte_rows(
        out@,
    ));
    Some(out)
}

/// Whether some bytes are those of a short list.
fn is_oid(s: &[u8], oid: Vec<u8>) -> (r: bool)
    ensures
        r == (s@ == oid@),
{
    same_bytes(s, oid.as_slice())
}

fn is_data(s: &[u8]) -> (r: bool)
    ensures
        r == (s@ == data_oid()),
{
    let oid: Vec<u8> = vec![0x2A, 0x86, 0x48, 0x86, 0xF7, 0x0D, 0x01, 0x07, 0x01];
    assert(oid@ =~= data_oid());
    is_oid(s, oid)
}

fn is_encrypted(s: &[u8]) -> (r: bool)
    ensures
        r == (s@ == encrypted_oid()),
{
    let oid: Vec<u8> = vec![0x2A, 0x86, 0x48, 0x86, 0xF7, 0x0D, 0x01, 0x07, 0x06];
    assert(oid@ =~= encrypted_oid());
    is_oid(s, oid)
}

fn is_sha1(s: &[u8]) -> (r: bool)
    ensures
        r == (s@ == sha1_oid()),
{
    let oid: Vec<u8> = vec![0x2B, 0x0E, 0x03, 0x02, 0x1A];
    assert(oid@ =~= sha1_oid());
    is_oid(s, oid)
}

fn is_password_cipher(s: &[u8]) -> (r: bool)
    ensures
        r == (s@ == rc2_oid() || s@ == triple_des_oid()),
{
    let rc2: Vec<u8> = vec![0x2A, 0x86, 0x48, 0x86, 0xF7, 0x0D, 0x01, 0x0C, 0x01, 0x06];
    let triple_des: Vec<u8> = vec![0x2A, 0x86, 0x48, 0x86, 0xF7, 0x0D, 0x01, 0x0C, 0x01, 0x03];
    assert(rc2@ =~= rc2_oid());
    assert(triple_des@ =~= triple_des_oid());
    is_oid(s, rc2) || is_oid(s, triple_des)
}

fn is_certificate(s: &[u8]) -> (r: bool)
    ensures
        r == (s@ == certificate_oid()),
{
    let oid: Vec<u8> = vec![0x2A, 0x86, 0x48, 0x86, 0xF7, 0x0D, 0x01, 0x0C, 0x0A, 0x01, 0x03];
    assert(oid@ =~= certificate_oid());
    is_oid(s, oid)
}

fn is_shrouded_key(s: &[u8]) -> (r: bool)
    ensures
        r == (s@ == shrouded_key_oid()),
{
    let oid: Vec<u8> = vec![0x2A, 0x86, 0x48, 0x86, 0xF7, 0x0D, 0x01, 0x0C, 0x0A, 0x01, 0x02];
    assert(oid@ =~= shrouded_key_oid());
    is_oid(s, oid)
}

fn is_known_attribute(s: &[u8]) -> (r: bool)
    ensures
        r == (s@ == friendly_name_oid() || s@ == local_key_oid()),
{
    let name: Vec<u8> = vec![0x2A, 0x86, 0x48, 0x86, 0xF7, 0x0D, 0x01, 0x09, 0x14];
    let key: Vec<u8> = vec![0x2A, 0x86, 0x48, 0x86, 0xF7, 0x0D, 0x01, 0x09, 0x15];
    assert(name@ =~= friendly_name_oid());
    assert(key@ =~= local_key_oid());
    is_oid(s, name) || is_oid(s, key)
}

fn check_algorithm(s: &[u8], run: bool) -> (r: bool)
    ensures
        r == algorithm_safe(s@, run),
{
    let (oid, rest) = match read_part(s, OBJECT) {
        Some(found) => found,
        None => {
            return false;
        },
    };
    if is_sha1(oid) {
        return true;
    }
    if !is_password_cipher(oid) {
        return rest.len() == 0 || read_element(rest).is_some();
    }
    match read_part(rest, SEQUENCE) {
        Some((params, _)) => match read_part(params, OCTETS) {
            Some((_, rest)) => match read_part(rest, INTEGER) {
                Some((rounds, _)) => !run || number_up_to(rounds, MAX_ROUNDS).is_some(),
                None => false,
            },
            None => false,
        },
        None => false,
    }
}

fn check_encrypted(s: &[u8]) -> (r: bool)
    ensures
        r == encrypted_safe(s@),
{
    match read_part(s, SEQUENCE) {
        Some((data, _)) => match read_part(data, INTEGER) {
            Some((version, rest)) => {
                if version.len() != 1 || version[0] != 0 {
                    assert(version@ != seq![0u8]);
                    return false;
                }
                assert(version@ =~= seq![0u8]);
                match read_part(rest, SEQUENCE) {
                    Some((info, _)) => match read_part(info, OBJECT) {
                        Some((kind, rest)) => {
                            if !is_data(kind) {
                                return false;
                            }
                            match read_part(rest, SEQUENCE) {
                                Some((algorithm, _)) => check_algorithm(algorithm, true),
                                None => false,
                            }
                        },
                        None => false,
                    },
                    None => false,
                }
            },
            None => false,
        },
        None => false,
    }
}

fn check_content(s: &[u8]) -> (r: bool)
    ensures
        r == content_safe(s@),
{
    match read_part(s, SEQUENCE) {
        Some((info, _)) => match read_part(info, OBJECT) {
            Some((oid, rest)) => match read_part(rest, WRAPPED) {
                Some((inner, _)) => {
                    if is_data(oid) {
                        true
                    } else if is_encrypted(oid) {
                        check_encrypted(inner)
                    } else {
                        read_element(inner).is_some()
                    }
                },
                None => false,
            },
            None => false,
        },
        None => false,
    }
}

fn check_seal(s: &[u8]) -> (r: bool)
    ensures
        r == seal_safe(s@),
{
    if s.len() == 0 {
        return true;
    }
    match read_part(s, SEQUENCE) {
        Some((seal, _)) => match read_part(seal, SEQUENCE) {
            Some((digest, _)) => match read_part(digest, SEQUENCE) {
                Some((algorithm, _)) => check_algorithm(algorithm, false),
                None => false,
            },
            None => false,
        },
        None => false,
    }
}

fn find_content<'a>(s: &'a [u8]) -> (r: Option<&'a [u8]>)
    ensures
        match r {
            Some(content) => file_content(s@) == Some(content@) && content_safe(content@),
            None => file_content(s@) is None,
        },
{
    let rest = match read_part(s, SEQUENCE) {
        Some((file, _)) => match read_part(file, INTEGER) {
            Some((_, rest)) => rest,
            None => {
                return None;
            },
        },
        None => {
            return None;
        },
    };
    match read_element(rest) {
        Some((_, _, end)) => {
            let content = slice_subrange(rest, 0, end);
            let seal = slice_subrange(rest, end, rest.len());
            assert(content@ =~= rest@.take(end as int));
            assert(seal@ =~= rest@.skip(end as int));
            if check_content(content) && check_seal(seal) {
                Some(content)
            } else {
                None
            }
        },
        None => None,
    }
}

fn check_attribute(s: &[u8]) -> (r: bool)
    ensures
        r == attribute_safe(s@),
{
    match read_part(s, SEQUENCE) {
        Some((attribute, _)) => match read_part(attribute, OBJECT) {
            Some((oid, rest)) => match read_part(rest, SET) {
                Some((values, _)) => is_known_attribute(oid) || read_elements(values).is_some(),
                None => false,
            },
            None => false,
        },
        None => false,
    }
}

fn check_all_attributes(list: &Vec<Vec<u8>>) -> (r: bool)
    ensures
        r == all_attributes_safe(crate::server::cert::byte_rows(list@)),
{
    let ghost rows = crate::server::cert::byte_rows(list@);
    for i in 0..list.len()
        invariant
            rows == crate::server::cert::byte_rows(list@),
            forall|j: int| 0 <= j < i ==> attribute_safe(#[trigger] rows[j]),
    {
        assert(rows[i as int] == list@[i as int]@);
        if !check_attribute(list[i].as_slice()) {
            return false;
        }
    }
    true
}

fn check_attributes(s: &[u8]) -> (r: bool)
    ensures
        r == attributes_safe(s@),
{
    if s.len() == 0 {
        return true;
    }
    match read_part(s, SET) {
        Some((set, _)) => match read_elements(set) {
            Some(list) => check_all_attributes(&list),
            None => false,
        },
        None => false,
    }
}

fn check_value(oid: &[u8], value: &[u8]) -> (r: bool)
    ensures
        r == value_safe(oid@, value@),
{
    if is_certificate(oid) {
        return true;
    }
    if !is_shrouded_key(oid) {
        return read_element(value).is_some();
    }
    match read_part(value, SEQUENCE) {
        Some((info, _)) => match read_part(info, SEQUENCE) {
            Some((algorithm, _)) => check_algorithm(algorithm, true),
            None => false,
        },
        None => false,
    }
}

fn check_bag(s: &[u8]) -> (r: bool)
    ensures
        r == bag_safe(s@),
{
    match read_part(s, SEQUENCE) {
        Some((bag, _)) => match read_part(bag, OBJECT) {
            Some((oid, rest)) => match read_part(rest, WRAPPED) {
                Some((value, attributes)) => check_value(oid, value) && check_attributes(attributes),
                None => false,
            },
            None => false,
        },
        None => false,
    }
}

fn check_all_bags(list: &Vec<Vec<u8>>) -> (r: bool)
    ensures
        r == all_bags_safe(crate::server::cert::byte_rows(list@)),
{
    let ghost rows = crate::server::cert::byte_rows(list@);
    for i in 0..list.len()
        invariant
            rows == crate::server::cert::byte_rows(list@),
            forall|j: int| 0 <= j < i ==> bag_safe(#[trigger] rows[j]),
    {
        assert(rows[i as int] == list@[i as int]@);
        if !check_bag(list[i].as_slice()) {
            return false;
        }
    }
    true
}

fn check_bags(s: &[u8]) -> (r: bool)
    ensures
        r == bags_safe(s@),
{
    match read_part(s, SEQUENCE) {
        Some((bags, _)) => match read_elements(bags) {
            Some(list) => check_all_bags(&list),
            None => false,
        },
        None => false,
    }
}

fn check_readable(content: &[u8], password: &[u8]) -> (r: bool)
    ensures
        r == content_readable(content@, password@),
{
    if !check_content(content) {
        return false;
    }
    match open_content(content, password) {
        Some(bags) => check_bags(bags.as_slice()),
        None => false,
    }
}

fn check_all_readable(list: &Vec<Vec<u8>>, password: &[u8]) -> (r: bool)
    ensures
        r == all_readable(crate::server::cert::byte_rows(list@), password@),
{
    let ghost rows = crate::server::cert::byte_rows(list@);
    for i in 0..list.len()
        invariant
            rows == crate::server::cert::byte_rows(list@),
            forall|j: int| 0 <= j < i ==> content_readable(#[trigger] rows[j], password@),
    {
        assert(rows[i as int] == list@[i as int]@);
        if !check_readable(list[i].as_slice(), password) {
            return false;
        }
    }
    true
}

fn push_unit(out: &mut Vec<u8>, unit: u32)
    requires
        unit < 0x1_0000,
    ensures
        final(out)@ == old(out)@ + unit_bytes(unit as int),
{
    out.push((unit / 256) as u8);
    out.push((unit % 256) as u8);
    assert(out@ =~= old(out)@ + unit_bytes(unit as int));
}

fn push_char(out: &mut Vec<u8>, c: char)
    ensures
        final(out)@ == old(out)@ + char_bytes(c),
{
    let code: u32 = c as u32;
    if code < 0x1_0000 {
        push_unit(out, code);
    } else {
        let high: u32 = code - 0x1_0000;
        push_unit(out, 0xD800 + high / 0x400);
        push_unit(out, 0xDC00 + high % 0x400);
    }
    assert(out@ =~= old(out)@ + char_bytes(c));
}

/// A password as such a file takes it.
pub fn file_password(password: &str) -> (r: Vec<u8>)
    ensures
        r@ == password_bytes(password@),
{
    let chars = chars_of(password);
    let mut out: Vec<u8> = Vec::new();
    for i in 0..chars.len()
        invariant
            chars@ == password@,
            out@ == utf16_bytes(password@.take(i as int)),
    {
        assert(password@.take(i + 1).drop_last() =~= password@.take(i as int));
        push_char(&mut out, chars[i]);
    }
    assert(password@.take(password@.len() as int) =~= password@);
    out.push(0);
    out.push(0);
    assert(out@ =~= password_bytes(password@));
    out
}

/// Whether a file can be opened with a password, and what it holds can be read.
pub fn is_readable(data: &[u8], password: &str) -> (r: bool)
    ensures
        r == can_be_read(data@, password_bytes(password@)),
{
    let password = file_password(password);
    let inner = match find_content(data) {
        Some(outer) => match open_content(outer, password.as_slice()) {
            Some(inner) => inner,
            None => {
                return false;
            },
        },
        None => {
            return false;
        },
    };
    match read_part(inner.as_slice(), SEQUENCE) {
        Some((contents, _)) => match read_elements(contents) {
            Some(list) => check_all_readable(&list, password.as_slice()),
            None => false,
        },
        None => false,
    }
}

/// The elements that some bytes are made of, one after the other, are those bytes: none is left out, and none
/// is empty.
pub proof fn elements_make_up_the_bytes(s: Seq<u8>)
    ensures
        elements(s) matches Some(list) ==> crate::util::joined(list) == s && forall|i: int|
            0 <= i < list.len() ==> (#[trigger] list[i]).len() > 0,
    decreases s.len(),
{
    if s.len() == 0 {
        assert(crate::util::joined(Seq::<Seq<u8>>::empty()) =~= s);
    } else if elements(s) is Some {
        let found = element(s)->0;
        let end = found.2;
        let rest = elements(s.skip(end))->0;
        elements_make_up_the_bytes(s.skip(end));
        crate::util::pieces_follow_each_other(seq![s.take(end)], rest, s.take(end));
        assert(s.take(end) + s.skip(end) =~= s);
        let list = seq![s.take(end)] + rest;
        assert forall|i: int| 0 <= i < list.len() implies (#[trigger] list[i]).len() > 0 by {
            if i > 0 {
                assert(list[i] == rest[i - 1]);
            }
        }
    }
}

/// A number in bytes has the highest first: one more byte behind it makes it two hundred and fifty-six times as
/// large and adds that byte, and zeros before it make no difference.
pub proof fn number_has_highest_first(s: Seq<u8>, b: u8)
    ensures
        number(s.push(b)) == 256 * number(s) + b,
        number(seq![0u8] + s) == number(s),
        number(seq![b]) == b,
    decreases s.len(),
{
    assert(s.push(b).drop_last() =~= s);
    assert(seq![b].drop_last() =~= Seq::empty());
    assert(number(Seq::<u8>::empty()) == 0);
    if s.len() > 0 {
        number_has_highest_first(s.drop_last(), b);
        assert((seq![0u8] + s).drop_last() =~= seq![0u8] + s.drop_last());
    } else {
        assert(seq![0u8] + s =~= seq![0u8]);
        assert(seq![0u8].drop_last() =~= Seq::empty());
    }
}

/// An element is read as it was written: a tag, the length in one byte or behind the number of its bytes, and
/// the content. What follows it is left.
pub proof fn element_reads_back(tag: u8, content: Seq<u8>, rest: Seq<u8>)
    requires
        tag % 32 != 31,
        content.len() < 65536,
    ensures
        content.len() < 128 ==> part(seq![tag, content.len() as u8] + content + rest, tag) == Some((content, rest)),
        part(
            seq![tag, 0x82u8, (content.len() / 256) as u8, (content.len() % 256) as u8] + content + rest,
            tag,
        ) == Some((content, rest)),
{
    let n = content.len();
    if n < 128 {
        let s = seq![tag, n as u8] + content + rest;
        assert(s[0] == tag && s[1] == n);
        assert(s.subrange(2, 2 + n as int) =~= content);
        assert(s.skip(2 + n as int) =~= rest);
        assert(element(s) == Some((tag, 2int, 2 + n as int)));
    }
    let high = (n / 256) as u8;
    let low = (n % 256) as u8;
    let s = seq![tag, 0x82u8, high, low] + content + rest;
    assert(s[0] == tag && s[1] == 0x82);
    assert(s.subrange(2, 4) =~= Seq::<u8>::empty().push(high).push(low));
    number_has_highest_first(Seq::<u8>::empty(), high);
    number_has_highest_first(Seq::<u8>::empty().push(high), low);
    assert(number(s.subrange(2, 4)) == n);
    assert(s.subrange(4, 4 + n as int) =~= content);
    assert(s.skip(4 + n as int) =~= rest);
    assert(element(s) == Some((tag, 4int, 4 + n as int)));
}

/// A password is told in two bytes for each of its letters, four for each that lies beyond, and two zeros at its
/// end; that of a longer text is that of its parts, one after the other.
pub proof fn password_is_told_letter_by_letter(a: Seq<char>, b: Seq<char>, c: char)
    ensures
        utf16_bytes(a + b) == utf16_bytes(a) + utf16_bytes(b),
        utf16_bytes(seq![c]).len() == if (c as int) < 0x1_0000 {
            2nat
        } else {
            4
        },
        (c as int) < 0x1_0000 ==> utf16_bytes(seq![c])[0] * 256 + utf16_bytes(seq![c])[1] == c as int,
        password_bytes(a).len() == utf16_bytes(a).len() + 2,
        password_bytes(a).last() == 0 && password_bytes(a)[password_bytes(a).len() - 2] == 0,
    decreases b.len(),
{
    assert(seq![c].drop_last() =~= Seq::empty());
    assert(utf16_bytes(Seq::<char>::empty()) =~= Seq::empty());
    assert(utf16_bytes(seq![c]) =~= char_bytes(c));
    if b.len() == 0 {
        assert(a + b =~= a);
        assert(utf16_bytes(a) + utf16_bytes(b) =~= utf16_bytes(a));
    } else {
        password_is_told_letter_by_letter(a, b.drop_last(), c);
        assert((a + b).drop_last() =~= a + b.drop_last());
        assert(utf16_bytes(a + b) =~= utf16_bytes(a) + utf16_bytes(b));
    }
}

/// No file is opened whose algorithm asks for more rounds than a machine can run: where the rounds are run, a
/// description that asks for more is never taken for a safe one, whatever the cipher.
pub proof fn too_many_rounds_are_refused(
    oid: Seq<u8>,
    salt: Seq<u8>,
    rounds: Seq<u8>,
    s: Seq<u8>,
    params: Seq<u8>,
    rest: Seq<u8>,
    after: Seq<u8>,
)
    requires
        oid == rc2_oid() || oid == triple_des_oid(),
        part(s, 0x06) == Some((oid, rest)),
        part(rest, 0x30) matches Some(p) && p.0 == params,
        part(params, 0x04) == Some((salt, after)),
        part(after, 0x02) matches Some(p) && p.0 == rounds,
    ensures
        algorithm_safe(s, true) <==> number(rounds) < 0x0100_0000_0000_0000,
        algorithm_safe(s, false),
{
    assert(rc2_oid().len() == 10 && triple_des_oid().len() == 10 && sha1_oid().len() == 5);
}

/// An element as it is written: its tag, its length in two bytes, and its content.
pub open spec fn written(tag: u8, content: Seq<u8>) -> Seq<u8> {
    seq![tag, 0x82u8, (content.len() / 256) as u8, (content.len() % 256) as u8] + content
}

/// The parts of what was written are found again, in order: the first by its tag, and by no other, and what
/// follows it as what is left.
pub proof fn written_part_is_found(tag: u8, content: Seq<u8>, rest: Seq<u8>, other: u8)
    requires
        tag % 32 != 31,
        content.len() < 65536,
    ensures
        part(written(tag, content) + rest, tag) == Some((content, rest)),
        part(written(tag, content), tag) == Some((content, Seq::<u8>::empty())),
        other != tag ==> part(written(tag, content) + rest, other) is None,
        element(written(tag, content) + rest) == Some((tag, 4int, 4 + content.len() as int)),
{
    element_reads_back(tag, content, rest);
    let s = written(tag, content) + rest;
    let high = (content.len() / 256) as u8;
    let low = (content.len() % 256) as u8;
    assert(s.subrange(2, 4) =~= Seq::<u8>::empty().push(high).push(low));
    number_has_highest_first(Seq::<u8>::empty(), high);
    number_has_highest_first(Seq::<u8>::empty().push(high), low);
    assert(written(tag, content) + Seq::<u8>::empty() =~= written(tag, content));
    element_reads_back(tag, content, Seq::<u8>::empty());
}

/// Elements that were written one after the other are found again, one by one.
pub proof fn written_elements_are_found(tags: Seq<u8>, contents: Seq<Seq<u8>>)
    requires
        tags.len() == contents.len(),
        forall|i: int| 0 <= i < tags.len() ==> (#[trigger] tags[i]) % 32 != 31,
        forall|i: int| 0 <= i < contents.len() ==> (#[trigger] contents[i]).len() < 65536,
    ensures
        ({
            let list = Seq::new(tags.len(), |i: int| written(tags[i], contents[i]));
            elements(crate::util::joined(list)) == Some(list)
        }),
    decreases tags.len(),
{
    let list = Seq::new(tags.len(), |i: int| written(tags[i], contents[i]));
    if tags.len() == 0 {
        assert(list =~= Seq::empty());
        assert(crate::util::joined(list) =~= Seq::empty());
        assert(elements(crate::util::joined(list)) =~= Some(list));
    } else {
        let rest = list.skip(1);
        assert forall|i: int| 0 <= i < tags.skip(1).len() implies (#[trigger] tags.skip(1)[i]) % 32 != 31 by {
            assert(tags.skip(1)[i] == tags[i + 1]);
        }
        assert forall|i: int| 0 <= i < contents.skip(1).len() implies (#[trigger] contents.skip(1)[i]).len() < 65536 by {
            assert(contents.skip(1)[i] == contents[i + 1]);
        }
        written_elements_are_found(tags.skip(1), contents.skip(1));
        assert(rest =~= Seq::new(tags.skip(1).len(), |i: int| written(tags.skip(1)[i], contents.skip(1)[i])));
        assert(list =~= seq![list[0]] + rest);
        crate::util::pieces_follow_each_other(seq![list[0]], rest, list[0]);
        let s = crate::util::joined(list);
        assert(s == list[0] + crate::util::joined(rest));
        written_part_is_found(tags[0], contents[0], crate::util::joined(rest), 0);
        let end = list[0].len() as int;
        assert(s.take(end) =~= list[0]);
        assert(s.skip(end) =~= crate::util::joined(rest));
        assert(s.len() > 0);
    }
}

/// The description of an algorithm that is written out is read: the digest as it is, and encryption under a
/// password if it asks for no more rounds than can be run.
pub proof fn written_algorithm_is_read(oid: Seq<u8>, salt: Seq<u8>, rounds: Seq<u8>, run: bool)
    requires
        oid == rc2_oid() || oid == triple_des_oid(),
        salt.len() + rounds.len() < 32768,
    ensures
        algorithm_safe(
            written(0x06, oid) + written(0x30, written(0x04, salt) + written(0x02, rounds)),
            run,
        ) <==> !run || number(rounds) < 0x0100_0000_0000_0000,
        !algorithm_safe(written(0x06, oid) + written(0x30, written(0x02, rounds)), run),
        !algorithm_safe(written(0x06, oid), run),
        algorithm_safe(written(0x06, sha1_oid()), run),
{
    let params = written(0x04, salt) + written(0x02, rounds);
    assert(rc2_oid().len() == 10 && triple_des_oid().len() == 10 && sha1_oid().len() == 5);
    written_part_is_found(0x06, oid, written(0x30, params), 0);
    written_part_is_found(0x30, params, Seq::empty(), 0);
    written_part_is_found(0x04, salt, written(0x02, rounds), 0);
    written_part_is_found(0x02, rounds, Seq::empty(), 0x04);
    assert(written(0x02, rounds) + Seq::<u8>::empty() =~= written(0x02, rounds));
    written_part_is_found(0x06, oid, written(0x30, written(0x02, rounds)), 0);
    written_part_is_found(0x30, written(0x02, rounds), Seq::empty(), 0);
    written_part_is_found(0x06, oid, Seq::empty(), 0);
    written_part_is_found(0x06, sha1_oid(), Seq::empty(), 0);
}

/// Encrypted data that is written out is read if its version is zero, and what it holds is plain data under an
/// algorithm that can be run.
pub proof fn written_data_is_read(version: u8, kind: Seq<u8>, algorithm: Seq<u8>, secret: Seq<u8>)
    requires
        kind.len() < 100,
        algorithm.len() + secret.len() < 32768,
    ensures
        ({
            let info = written(0x06, kind) + written(0x30, algorithm) + secret;
            let data = written(0x30, written(0x02, seq![version]) + written(0x30, info));
            encrypted_safe(data) <==> version == 0 && kind == data_oid() && algorithm_safe(algorithm, true)
        }),
{
    let info = written(0x06, kind) + written(0x30, algorithm) + secret;
    let both = written(0x02, seq![version]) + written(0x30, info);
    written_part_is_found(0x30, both, Seq::empty(), 0);
    written_part_is_found(0x02, seq![version], written(0x30, info), 0);
    written_part_is_found(0x30, info, Seq::empty(), 0);
    assert(info =~= written(0x06, kind) + (written(0x30, algorithm) + secret));
    written_part_is_found(0x06, kind, written(0x30, algorithm) + secret, 0);
    written_part_is_found(0x30, algorithm, secret, 0);
    assert(seq![version] == seq![0u8] <==> version == 0) by {
        assert(seq![version][0] == version);
        assert(seq![0u8][0] == 0);
    }
}

/// Content that is written out is read: plain data always, encrypted data as far as that is read.
pub proof fn written_content_is_read(oid: Seq<u8>, inner: Seq<u8>)
    requires
        oid.len() < 100,
        inner.len() < 60000,
    ensures
        ({
            let content = written(0x30, written(0x06, oid) + written(0xA0, inner));
            &&& oid == data_oid() ==> content_safe(content)
            &&& oid == encrypted_oid() ==> (content_safe(content) <==> encrypted_safe(inner))
            &&& oid != data_oid() && oid != encrypted_oid() ==> (content_safe(content) <==> element(inner) is Some)
        }),
{
    let both = written(0x06, oid) + written(0xA0, inner);
    written_part_is_found(0x30, both, Seq::empty(), 0);
    written_part_is_found(0x06, oid, written(0xA0, inner), 0);
    written_part_is_found(0xA0, inner, Seq::empty(), 0);
    assert(data_oid()[8] == 1 && encrypted_oid()[8] == 6);
}

/// A bag that is written out is read if its value is, and what is noted of it: a certificate always is, and a
/// key by its algorithm.
pub proof fn written_bag_is_read(oid: Seq<u8>, value: Seq<u8>, notes: Seq<u8>, algorithm: Seq<u8>, secret: Seq<u8>)
    requires
        oid.len() < 100,
        value.len() + notes.len() < 32768,
        algorithm.len() + secret.len() < 16384,
    ensures
        ({
            let bag = written(0x30, written(0x06, oid) + written(0xA0, value) + notes);
            &&& oid == certificate_oid() ==> (bag_safe(bag) <==> attributes_safe(notes))
            &&& oid == shrouded_key_oid() && value == written(0x30, written(0x30, algorithm) + secret) ==> (bag_safe(
                bag,
            ) <==> algorithm_safe(algorithm, true) && attributes_safe(notes))
            &&& oid != certificate_oid() && oid != shrouded_key_oid() ==> (bag_safe(bag) <==> element(value) is Some
                && attributes_safe(notes))
        }),
        attributes_safe(Seq::empty()),
{
    let all = written(0x06, oid) + written(0xA0, value) + notes;
    written_part_is_found(0x30, all, Seq::empty(), 0);
    assert(all =~= written(0x06, oid) + (written(0xA0, value) + notes));
    written_part_is_found(0x06, oid, written(0xA0, value) + notes, 0);
    written_part_is_found(0xA0, value, notes, 0);
    written_part_is_found(0x30, written(0x30, algorithm) + secret, Seq::empty(), 0);
    written_part_is_found(0x30, algorithm, secret, 0);
    assert(certificate_oid()[10] == 3 && shrouded_key_oid()[10] == 2);
}

/// Bags that are written out are read if each of them is; one that is not spoils them all. So it is with what
/// is noted of them, and with pieces of content.
pub proof fn each_piece_must_be_read(
    tags: Seq<u8>,
    contents: Seq<Seq<u8>>,
    k: int,
    password: Seq<u8>,
)
    requires
        tags.len() == contents.len(),
        forall|i: int| 0 <= i < tags.len() ==> (#[trigger] tags[i]) % 32 != 31,
        forall|i: int| 0 <= i < contents.len() ==> (#[trigger] contents[i]).len() < 65536,
        0 <= k < tags.len(),
        crate::util::joined(Seq::new(tags.len(), |i: int| written(tags[i], contents[i]))).len() < 65536,
    ensures
        ({
            let list = Seq::new(tags.len(), |i: int| written(tags[i], contents[i]));
            let all = crate::util::joined(list);
            &&& bags_safe(written(0x30, all)) ==> bag_safe(list[k])
            &&& attributes_safe(written(0x31, all)) ==> attribute_safe(list[k])
            &&& all_readable(list, password) ==> content_readable(list[k], password)
            &&& tags.len() == 1 && bag_safe(list[k]) ==> bags_safe(written(0x30, all))
            &&& tags.len() == 1 && attribute_safe(list[k]) ==> attributes_safe(written(0x31, all))
            &&& tags.len() == 1 && content_readable(list[k], password) ==> all_readable(list, password)
        }),
{
    let list = Seq::new(tags.len(), |i: int| written(tags[i], contents[i]));
    let all = crate::util::joined(list);
    written_elements_are_found(tags, contents);
    written_part_is_found(0x30, all, Seq::empty(), 0);
    written_part_is_found(0x31, all, Seq::empty(), 0);
    assert(written(0x31, all).len() > 0);
}

/// A note that is written out is read, whatever it says; one with an unknown name must hold elements.
pub proof fn written_note_is_read(oid: Seq<u8>, values: Seq<u8>)
    requires
        oid.len() < 100,
        values.len() < 60000,
    ensures
        ({
            let note = written(0x30, written(0x06, oid) + written(0x31, values));
            &&& oid == friendly_name_oid() || oid == local_key_oid() ==> attribute_safe(note)
            &&& oid != friendly_name_oid() && oid != local_key_oid() ==> (attribute_safe(note) <==> elements(
                values,
            ) is Some)
        }),
{
    let both = written(0x06, oid) + written(0x31, values);
    written_part_is_found(0x30, both, Seq::empty(), 0);
    written_part_is_found(0x06, oid, written(0x31, values), 0);
    written_part_is_found(0x31, values, Seq::empty(), 0);
}

/// A file that is written out gives back its content: it needs a version, whatever it is, content that can be
/// read, and a seal that can be read or none.
pub proof fn written_file_gives_its_content(version: Seq<u8>, oid: Seq<u8>, inner: Seq<u8>, seal: Seq<u8>)
    requires
        version.len() < 100,
        oid.len() < 100,
        inner.len() + seal.len() < 60000,
    ensures
        ({
            let content = written(0x30, written(0x06, oid) + written(0xA0, inner));
            let file = written(0x30, written(0x02, version) + content + seal);
            &&& content_safe(content) && seal_safe(seal) ==> file_content(file) == Some(content)
            &&& !content_safe(content) || !seal_safe(seal) ==> file_content(file) is None
        }),
        seal_safe(Seq::empty()),
{
    let body = written(0x06, oid) + written(0xA0, inner);
    let content = written(0x30, body);
    let all = written(0x02, version) + content + seal;
    written_part_is_found(0x30, all, Seq::empty(), 0);
    assert(all =~= written(0x02, version) + (content + seal));
    written_part_is_found(0x02, version, content + seal, 0);
    written_part_is_found(0x30, body, seal, 0);
    let end = 4 + body.len() as int;
    assert((content + seal).take(end) =~= content);
    assert((content + seal).skip(end) =~= seal);
}

/// The seal that is written out is read by its algorithm, however many rounds that asks for.
pub proof fn written_seal_is_read(algorithm: Seq<u8>, digest: Seq<u8>, rest: Seq<u8>)
    requires
        algorithm.len() + digest.len() + rest.len() < 32768,
    ensures
        seal_safe(written(0x30, written(0x30, written(0x30, algorithm) + digest) + rest)) <==> algorithm_safe(
            algorithm,
            false,
        ),
{
    let info = written(0x30, algorithm) + digest;
    written_part_is_found(0x30, written(0x30, info) + rest, Seq::empty(), 0);
    written_part_is_found(0x30, info, rest, 0);
    written_part_is_found(0x30, algorithm, digest, 0);
}

/// What is no element of the right kind is read as nothing.
pub proof fn other_elements_are_refused(s: Seq<u8>, run: bool, password: Seq<u8>)
    ensures
        part(s, 0x30) is None ==> !encrypted_safe(s) && !content_safe(s) && file_content(s) is None
            && !attribute_safe(s) && !bag_safe(s) && !bags_safe(s) && !content_readable(s, password) && !can_be_read(
            s,
            password,
        ),
        part(s, 0x06) is None ==> !algorithm_safe(s, run),
        s.len() > 0 && part(s, 0x30) is None ==> !seal_safe(s),
        s.len() > 0 && part(s, 0x31) is None ==> !attributes_safe(s),
{
}

/// A tag that goes on in more bytes ends with the first of them that has no high bit.
pub proof fn long_tag_ends_with_low_byte(s: Seq<u8>, high: Seq<u8>, low: u8, rest: Seq<u8>)
    requires
        s.len() == 1 && s[0] % 32 == 31,
        forall|i: int| 0 <= i < high.len() ==> (#[trigger] high[i]) >= 128,
        low < 128,
    ensures
        tag_end(s + high + seq![low] + rest) == Some(2 + high.len() as int),
        tag_end(s + high) is None,
{
    let all = s + high + seq![low] + rest;
    lemma_tag_goes_on(all, 1, 1 + high.len() as int);
    lemma_tag_goes_on(s + high, 1, 1 + high.len() as int);
    assert(all[1 + high.len() as int] == low);
}

proof fn lemma_tag_goes_on(s: Seq<u8>, i: int, end: int)
    requires
        0 <= i <= end <= s.len(),
        forall|k: int| i <= k < end ==> (#[trigger] s[k]) >= 128,
    ensures
        long_tag_end(s, i) == long_tag_end(s, end),
    decreases end - i,
{
    if i < end {
        lemma_tag_goes_on(s, i + 1, end);
    }
}

/// A file that can be read is opened from the outside to the inside: its content opens to a list of pieces, and
/// each of these opens to bags that can be read.
pub proof fn file_is_read_to_its_bags(data: &[u8], password: &str, r: bool, pieces: Seq<Seq<u8>>, k: int)
    requires
        call_ensures(is_readable, (data, password), r),
        r,
        0 <= k < pieces.len(),
        file_content(data@) matches Some(outer) && content_opened(outer, password_bytes(password@)) matches Some(inner)
            && part(inner, 0x30) matches Some(found) && elements(found.0) == Some(pieces),
    ensures
        content_opened(pieces[k], password_bytes(password@)) matches Some(bags) && bags_safe(bags),
        content_safe(pieces[k]),
{
}

/// A file whose outer content does not open, or opens to something else than a list, cannot be read.
pub proof fn unopened_file_is_not_read(data: &[u8], password: &str, r: bool)
    requires
        call_ensures(is_readable, (data, password), r),
    ensures
        r ==> (file_content(data@) matches Some(outer) && content_opened(outer, password_bytes(password@)) matches Some(
            inner,
        ) && part(inner, 0x30) matches Some(found) && elements(found.0) is Some),
{
}

/// The password of a file is that of its text: two bytes for each common letter, the high one first, and two
/// zeros.
pub proof fn password_is_made_from_its_text(password: &str, c: char, r: Vec<u8>)
    requires
        call_ensures(file_password, (password,), r),
        password@ == seq![c],
        (c as int) < 0x1_0000,
    ensures
        r@.len() == 4,
        r@[0] * 256 + r@[1] == c as int,
        r@[2] == 0 && r@[3] == 0,
{
    password_is_told_letter_by_letter(seq![c], Seq::empty(), c);
    let b = utf16_bytes(seq![c]);
    assert(r@ == b + seq![0u8, 0u8]);
    assert(r@[0] == b[0] && r@[1] == b[1]);
}

} // verus!
