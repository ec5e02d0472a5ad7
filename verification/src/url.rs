//! URLs as texts. Reading and editing them is the work of `reqwest::Url`.
use vstd::prelude::*;

verus! {

/// How long a text may be that a URL is edited with, in bytes. A URL tells its places as numbers of
/// thirty-two bits; encoding makes a text several times longer, but not long enough to leave these.
pub const URL_LIMIT: u64 = 0x0800_0000;

/// How long a text is, in bytes.
pub open spec fn byte_len(s: Seq<char>) -> nat {
    vstd::utf8::encode_utf8(s).len()
}

/// Whether a URL can be edited with another text: they are not too long together.
pub open spec fn can_be_edited(url: Seq<char>, with: Seq<char>) -> bool {
    byte_len(url) + byte_len(with) <= URL_LIMIT
}

/// How long some pairs are, in bytes, each with its two separators.
pub open spec fn pairs_len(pairs: Seq<(Seq<char>, Seq<char>)>) -> nat
    decreases pairs.len(),
{
    if pairs.len() == 0 {
        0
    } else {
        pairs_len(pairs.drop_last()) + byte_len(pairs.last().0) + byte_len(pairs.last().1) + 2
    }
}

/// Whether a URL can take pairs: it is not too long, and neither is what comes before its fragment, if
/// it has one.
pub open spec fn can_take_pairs(url: Seq<char>, pairs: Seq<(Seq<char>, Seq<char>)>) -> bool {
    &&& byte_len(url) <= URL_LIMIT
    &&& url.contains('#') ==> byte_len(url) + pairs_len(pairs) <= URL_LIMIT
}

/// The texts of some pairs.
pub open spec fn pair_texts(pairs: Seq<(String, String)>) -> Seq<(Seq<char>, Seq<char>)> {
    pairs.map_values(|p: (String, String)| (p.0@, p.1@))
}

/// A text read as a URL and written again, `None` if it is not one.
pub uninterp spec fn url_parsed(text: Seq<char>) -> Option<Seq<char>>;

/// `reqwest::Url::parse`, and the URL written as a text again. The result depends on the text
/// alone.
#[verifier::external_body]
pub(crate) fn url_parse(text: &str) -> (r: Option<String>)
    ensures
        crate::text::opt_text(r) == url_parsed(text@),
{
    match reqwest::Url::parse(text) {
        Ok(url) => Some(url.to_string()),
        Err(_) => None,
    }
}

/// A URL with pairs added to its query, `None` if the text is not a URL.
pub uninterp spec fn url_with_pairs(
    url: Seq<char>,
    pairs: Seq<(Seq<char>, Seq<char>)>,
) -> Option<Seq<char>>;

/// `extend_pairs` on `query_pairs_mut` of a `reqwest::Url`: every text that is a URL can take
/// pairs, each encoded for a query, and the result depends on the URL and the pairs alone. It panics
/// where the query or the fragment would start beyond the first four gigabytes, which the limits keep
/// out.
#[verifier::external_body]
fn url_extend_pairs(url: &str, pairs: &Vec<(String, String)>) -> (r: Option<String>)
    requires
        can_take_pairs(url@, pair_texts(pairs@)),
    ensures
        crate::text::opt_text(r) == url_with_pairs(url@, pair_texts(pairs@)),
        r is Some <==> url_parsed(url@) is Some,
{
    let mut url = match reqwest::Url::parse(url) {
        Ok(url) => url,
        Err(_) => return None,
    };
    url.query_pairs_mut().extend_pairs(pairs);
    Some(url.to_string())
}

/// A URL with another last segment, `None` if the text is not a URL or the URL has no segments.
pub uninterp spec fn url_with_last_segment(url: Seq<char>, segment: Seq<char>) -> Option<Seq<char>>;

/// `pop` and `push` on `path_segments_mut` of a `reqwest::Url`: the last segment of the path makes
/// way for another. The result depends on the URL and the segment alone. It panics where the path would
/// end beyond the first four gigabytes, which the limit keeps out.
#[verifier::external_body]
fn url_replace_last_segment(url: &str, segment: &str) -> (r: Option<String>)
    requires
        can_be_edited(url@, segment@),
    ensures
        crate::text::opt_text(r) == url_with_last_segment(url@, segment@),
        r is Some ==> url_parsed(url@) is Some,
{
    let mut url = match reqwest::Url::parse(url) {
        Ok(url) => url,
        Err(_) => return None,
    };
    match url.path_segments_mut() {
        Ok(mut segments) => segments.pop().push(segment),
        Err(_) => return None,
    };
    Some(url.to_string())
}

/// A URL with another host, `None` if the text is not a URL or cannot have that host.
pub uninterp spec fn url_with_host(url: Seq<char>, host: Seq<char>) -> Option<Seq<char>>;

/// `set_host` of a `reqwest::Url`. The result depends on the URL and the host alone. It panics where the
/// host would end beyond the first four gigabytes, which the limit keeps out.
#[verifier::external_body]
fn url_set_host(url: &str, host: &str) -> (r: Option<String>)
    requires
        can_be_edited(url@, host@),
    ensures
        crate::text::opt_text(r) == url_with_host(url@, host@),
        r is Some ==> url_parsed(url@) is Some,
{
    let mut url = match reqwest::Url::parse(url) {
        Ok(url) => url,
        Err(_) => return None,
    };
    match url.set_host(Some(host)) {
        Ok(_) => Some(url.to_string()),
        Err(_) => None,
    }
}

/// The host of a URL, `None` if the text is not a URL or the URL has no host.
pub uninterp spec fn url_host(url: Seq<char>) -> Option<Seq<char>>;

/// `host_str` of a `reqwest::Url`. The result depends on the URL alone.
#[verifier::external_body]
pub(crate) fn url_host_str(url: &str) -> (r: Option<String>)
    ensures
        crate::text::opt_text(r) == url_host(url@),
        r is Some ==> url_parsed(url@) is Some,
{
    let url = match reqwest::Url::parse(url) {
        Ok(url) => url,
        Err(_) => return None,
    };
    match url.host_str() {
        Some(host) => Some(host.to_string()),
        None => None,
    }
}

/// The port that a URL names, `None` if the text is not a URL or the URL names none.
pub uninterp spec fn url_port(url: Seq<char>) -> Option<u16>;

/// `port` of a `reqwest::Url`: the port where it is not the usual one of the scheme. The result
/// depends on the URL alone.
#[verifier::external_body]
pub(crate) fn url_port_number(url: &str) -> (r: Option<u16>)
    ensures
        r == url_port(url@),
        r is Some ==> url_parsed(url@) is Some,
{
    match reqwest::Url::parse(url) {
        Ok(url) => url.port(),
        Err(_) => None,
    }
}

/// The scheme of a URL, `None` if the text is not a URL.
pub uninterp spec fn url_scheme(url: Seq<char>) -> Option<Seq<char>>;

/// `scheme` of a `reqwest::Url`. The result depends on the URL alone.
#[verifier::external_body]
pub(crate) fn url_scheme_text(url: &str) -> (r: Option<String>)
    ensures
        crate::text::opt_text(r) == url_scheme(url@),
        r is Some <==> url_parsed(url@) is Some,
{
    match reqwest::Url::parse(url) {
        Ok(url) => Some(url.scheme().to_string()),
        Err(_) => None,
    }
}

/// Whether two texts are not too long together.
fn is_short(url: &str, with: &str) -> (r: bool)
    ensures
        r == can_be_edited(url@, with@),
{
    let a: u64 = url.as_bytes().len() as u64;
    let b: u64 = with.as_bytes().len() as u64;
    a <= URL_LIMIT && b <= URL_LIMIT - a
}

/// Whether a text holds a character.
fn has_char(s: &str, wanted: char) -> (r: bool)
    ensures
        r == s@.contains(wanted),
{
    for c in it: s.chars()
        invariant
            it.seq() == s@,
            forall|i: int| 0 <= i < it.index() ==> s@[i] != wanted,
    {
        if c == wanted {
            assert(s@[it.index() as int] == wanted);
            return true;
        }
    }
    false
}

proof fn lemma_pairs_prefix(pairs: Seq<(Seq<char>, Seq<char>)>, i: int)
    requires
        0 <= i <= pairs.len(),
    ensures
        pairs_len(pairs.take(i)) <= pairs_len(pairs),
    decreases pairs.len(),
{
    if i < pairs.len() {
        assert(pairs.drop_last().take(i) =~= pairs.take(i));
        lemma_pairs_prefix(pairs.drop_last(), i);
    } else {
        assert(pairs.take(i) =~= pairs);
    }
}

/// Whether some pairs are no longer than so many bytes.
fn pairs_fit(pairs: &Vec<(String, String)>, room: u64) -> (r: bool)
    ensures
        r == (pairs_len(pair_texts(pairs@)) <= room),
{
    let ghost texts = pair_texts(pairs@);
    let mut left: u64 = room;
    for i in 0..pairs.len()
        invariant
            texts == pair_texts(pairs@),
            left == room - pairs_len(texts.take(i as int)),
    {
        assert(texts.take(i + 1).drop_last() =~= texts.take(i as int));
        assert(texts[i as int] == (pairs@[i as int].0@, pairs@[i as int].1@));
        proof {
            lemma_pairs_prefix(texts, i + 1);
        }
        let name: u64 = pairs[i].0.as_str().as_bytes().len() as u64;
        let value: u64 = pairs[i].1.as_str().as_bytes().len() as u64;
        if left < 2 || name > left - 2 || value > left - 2 - name {
            return false;
        }
        left = left - 2 - name - value;
    }
    assert(texts.take(texts.len() as int) =~= texts);
    true
}

/// A URL with pairs added to its query, `None` if the text is not a URL or too much would have to be
/// written.
pub open spec fn with_pairs(url: Seq<char>, pairs: Seq<(Seq<char>, Seq<char>)>) -> Option<Seq<char>> {
    if can_take_pairs(url, pairs) {
        url_with_pairs(url, pairs)
    } else {
        None
    }
}

/// Adds pairs to the query of a URL.
pub(crate) fn add_pairs(url: &str, pairs: &Vec<(String, String)>) -> (r: Option<String>)
    ensures
        crate::text::opt_text(r) == with_pairs(url@, pair_texts(pairs@)),
        r is Some <==> url_parsed(url@) is Some && can_take_pairs(url@, pair_texts(pairs@)),
{
    let len: u64 = url.as_bytes().len() as u64;
    if len > URL_LIMIT {
        return None;
    }
    if pairs_fit(pairs, URL_LIMIT - len) || !has_char(url, '#') {
        url_extend_pairs(url, pairs)
    } else {
        None
    }
}

/// A URL with another last segment, `None` if the text is not a URL, the URL has no segments, or too
/// much would have to be written.
pub open spec fn with_last_segment(url: Seq<char>, segment: Seq<char>) -> Option<Seq<char>> {
    if can_be_edited(url, segment) {
        url_with_last_segment(url, segment)
    } else {
        None
    }
}

/// Puts another segment in place of the last one of a URL.
pub(crate) fn replace_last_segment(url: &str, segment: &str) -> (r: Option<String>)
    ensures
        crate::text::opt_text(r) == with_last_segment(url@, segment@),
{
    if is_short(url, segment) {
        url_replace_last_segment(url, segment)
    } else {
        None
    }
}

/// A URL with another host, `None` if the text is not a URL or cannot have that host, or too much would
/// have to be written.
pub open spec fn with_host(url: Seq<char>, host: Seq<char>) -> Option<Seq<char>> {
    if can_be_edited(url, host) {
        url_with_host(url, host)
    } else {
        None
    }
}

/// Puts another host in place of that of a URL.
pub(crate) fn set_host(url: &str, host: &str) -> (r: Option<String>)
    ensures
        crate::text::opt_text(r) == with_host(url@, host@),
{
    if is_short(url, host) {
        url_set_host(url, host)
    } else {
        None
    }
}

/// Texts of up to a hundred and twenty-eight megabytes together are edited as they are; longer ones are not
/// edited at all.
pub proof fn short_texts_are_edited(url: Seq<char>, with: Seq<char>, pairs: Seq<(Seq<char>, Seq<char>)>)
    ensures
        byte_len(url) + byte_len(with) <= 128 * 1024 * 1024 ==> with_host(url, with) == url_with_host(url, with)
            && with_last_segment(url, with) == url_with_last_segment(url, with),
        byte_len(url) + byte_len(with) > 128 * 1024 * 1024 ==> with_host(url, with) is None && with_last_segment(
            url,
            with,
        ) is None,
        byte_len(url) + pairs_len(pairs) <= 128 * 1024 * 1024 ==> with_pairs(url, pairs) == url_with_pairs(
            url,
            pairs,
        ),
        byte_len(url) > 128 * 1024 * 1024 ==> with_pairs(url, pairs) is None,
{
}

} // verus!
