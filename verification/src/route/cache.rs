//! Files of the cache: who may have them, what is sent, and how a missing one is fetched.
use vstd::array::array_as_slice;
use vstd::prelude::*;
use vstd::slice::slice_subrange;
use vstd::string::*;

use crate::cache_file::CacheFileInfo;
use crate::cache_manager::ScanEntry;
use crate::digest::{const_hex_encode, context_finish, context_new, context_update, same_bytes, same_hash};
use crate::route::{parse_additional, ResponseHead};
use crate::rpc::RPCClient;
use crate::text::{parse_i64, push_u64, same_text, split, starts_with, u64_text};
use crate::url::{url_host_str, url_parse};
use crate::util::string_to_hash;

verus! {

/// How far the time of a key may be off, in seconds.
pub const KEY_TTL: i64 = 900;

/// How long a file may be kept by a browser.
pub const CACHE_HEADER: &'static str = "public, max-age=31536000";

/// The disposition of a file whose name cannot be told.
pub const DEFAULT_DISPOSITION: &'static str = "inline";

/// The ranges that a header asks for, within a file of some size, `None` if they cannot be served.
pub uninterp spec fn ranges_of(header: Seq<char>, size: u64) -> Option<Seq<(u64, u64)>>;

/// Some ranges as a sequence.
pub open spec fn range_list(ranges: Option<Vec<(u64, u64)>>) -> Option<Seq<(u64, u64)>> {
    match ranges {
        Some(list) => Some(list@),
        None => None,
    }
}

/// Whether a range lies in a file of some size. The empty file has the range of its first byte.
pub open spec fn range_in(range: (u64, u64), size: u64) -> bool {
    range.0 <= range.1 && (range.1 < size || (size == 0 && range.1 == 0))
}

/// `http_range_header::parse_range_header` and `validate` on what it read, the ranges written as
/// pairs of the first and the last byte. The result depends on the header and the size alone, and no
/// range reaches behind the end of the file.
#[verifier::external_body]
fn parse_ranges(header: &str, size: u64) -> (r: Option<Vec<(u64, u64)>>)
    ensures
        range_list(r) == ranges_of(header@, size),
        r matches Some(list) ==> forall|i: int|
            0 <= i < list@.len() ==> range_in(#[trigger] list@[i], size),
{
    let parsed = http_range_header::parse_range_header(header).ok()?;
    let ranges = parsed.validate(size).ok()?;
    Some(ranges.into_iter().map(|r| (*r.start(), *r.end())).collect())
}

/// Whether a text can be the value of a header: no control characters but the tab.
pub open spec fn header_text(s: Seq<char>) -> bool {
    forall|i: int|
        0 <= i < vstd::utf8::encode_utf8(s).len() ==> {
            let b = #[trigger] vstd::utf8::encode_utf8(s)[i];
            (b >= 32 && b != 127) || b == 9
        }
}

/// `axum::http::HeaderValue::from_str`: a value is accepted if each of its bytes is a tab, or is no
/// control character.
#[verifier::external_body]
fn is_header_value(s: &str) -> (r: bool)
    ensures
        r == header_text(s@),
{
    axum::http::HeaderValue::from_str(s).is_ok()
}

/// The part of a request for a file that decides about the answer.
#[derive(Debug)]
pub struct HathRequest {
    pub file_id: String,
    pub additional: String,
    pub file_name: String,
    pub if_none_match: Option<String>,
    pub range: Option<String>,
    pub if_range: Option<String>,
}

/// What a key is made from.
pub open spec fn key_text(time: Seq<char>, file_id: Seq<char>, key: Seq<char>) -> Seq<char> {
    time + "-"@ + file_id + "-"@ + key + "-hotlinkthis"@
}

/// The time and the signature of a key. Either may be missing.
pub open spec fn keystamp(additional: Seq<char>) -> (Seq<char>, Seq<char>) {
    let values = crate::route::request_values(crate::text::split_seq(additional, ';'));
    let parts = crate::text::split_seq(crate::params::value_or_empty(values, "keystamp"@), '-');
    (
        parts[0],
        if parts.len() > 1 {
            parts[1]
        } else {
            Seq::empty()
        },
    )
}

/// Whether a key opens a file at a time of the server's clock: its time is near, and its signature
/// begins the one that this client computes. A time that is not a number counts as the epoch.
pub open spec fn key_opens(
    stamp: (Seq<char>, Seq<char>),
    file_id: Seq<char>,
    now: int,
    key: Seq<char>,
) -> bool {
    let (time, hash) = stamp;
    let at = match crate::text::parse_signed(time, i64::MIN as int, i64::MAX as int) {
        Some(t) => t,
        None => 0,
    };
    &&& time.len() > 0
    &&& hash.len() > 0
    &&& -KEY_TTL <= now - at <= KEY_TTL
    &&& hash.is_prefix_of(crate::util::hash_text(key_text(time, file_id, key)))
}

fn check_key(additional: &str, file_id: &str, now: i64, key: &str) -> (r: bool)
    ensures
        r == key_opens(keystamp(additional@), file_id@, now as int, key@),
{
    let values = parse_additional(additional);
    let stamp = values.get_or_empty("keystamp");
    let parts = split(stamp, '-');
    let ghost pieces = crate::text::split_seq(stamp@, '-');
    proof {
        crate::text::lemma_split_nonempty(stamp@, '-');
        assert(crate::text::texts(parts@).len() == parts@.len());
        assert(pieces[0] == parts@[0]@);
        assert(pieces.len() > 1 ==> pieces[1] == parts@[1]@);
    }
    if parts.len() < 2 {
        return false;
    }
    let time = parts[0].as_str();
    let hash = parts[1].as_str();
    let at: i64 = match parse_i64(time, i64::MIN, i64::MAX) {
        Some(t) => t,
        None => 0,
    };
    let diff: i128 = now as i128 - at as i128;
    let mut text = time.to_owned();
    text.append("-");
    text.append(file_id);
    text.append("-");
    text.append(key);
    text.append("-hotlinkthis");
    let signature = string_to_hash(text);
    !time.is_empty() && !hash.is_empty() && -(KEY_TTL as i128) <= diff && diff <= KEY_TTL as i128
        && starts_with(signature.as_str(), hash)
}

/// The tag by which a browser recognises a file it already has.
pub open spec fn etag_of(hash: Seq<u8>) -> Seq<char> {
    "\""@ + crate::digest::hex_seq(hash.take(4)) + "\""@
}

fn etag(info: &CacheFileInfo) -> (r: String)
    ensures
        r@ == etag_of(info@.hash),
{
    let hash = info.hash();
    let start = slice_subrange(array_as_slice(&hash), 0, 4);
    assert(start@ =~= hash@.take(4));
    let mut tag = "\"".to_owned();
    tag.append(const_hex_encode(start).as_str());
    tag.append("\"");
    tag
}

/// How a browser is to treat a file: shown, under the name it was asked by where a header can carry
/// it.
pub open spec fn disposition(file_name: Seq<char>) -> Seq<char> {
    let full = "inline; filename=\""@ + file_name + "\""@;
    if header_text(full) {
        full
    } else {
        DEFAULT_DISPOSITION@
    }
}

fn content_disposition(file_name: &str) -> (r: String)
    ensures
        r@ == disposition(file_name@),
{
    let mut full = "inline; filename=\"".to_owned();
    full.append(file_name);
    full.append("\"");
    if is_header_value(full.as_str()) {
        full
    } else {
        DEFAULT_DISPOSITION.to_owned()
    }
}

/// The range to serve: one that was asked for alone, unless the browser has another version of the
/// file.
pub open spec fn chosen_range(
    ranges: Option<Seq<(u64, u64)>>,
    if_range: Option<Seq<char>>,
    tag: Seq<char>,
) -> Option<(u64, u64)> {
    match ranges {
        Some(list) if list.len() == 1 => match if_range {
            Some(other) if other != tag => None,
            _ => Some(list[0]),
        },
        _ => None,
    }
}

/// The range to serve, among those that were asked for.
pub fn choose_range(
    ranges: &Option<Vec<(u64, u64)>>,
    if_range: &Option<String>,
    tag: &str,
) -> (r: Option<(u64, u64)>)
    ensures
        r == chosen_range(range_list(*ranges), crate::text::opt_text(*if_range), tag@),
{
    match ranges {
        Some(list) => {
            if list.len() != 1 {
                return None;
            }
            match if_range {
                Some(other) => {
                    if !same_text(other.as_str(), tag) {
                        return None;
                    }
                },
                None => {},
            }
            Some(list[0])
        },
        None => None,
    }
}

/// What is sent of a file.
#[verifier::ext_equal]
pub struct ServeView {
    pub id: crate::cache_file::FileId,
    pub media: Seq<char>,
    pub disposition: Seq<char>,
    pub tag: Seq<char>,
    pub range: Option<(u64, u64)>,
}

/// What is sent of a file.
pub struct ServePlan {
    pub info: CacheFileInfo,
    pub content_type: String,
    pub content_disposition: String,
    pub etag: String,
    pub range: Option<(u64, u64)>,
}

impl View for ServePlan {
    type V = ServeView;

    open spec fn view(&self) -> ServeView {
        ServeView {
            id: self.info@,
            media: self.content_type@,
            disposition: self.content_disposition@,
            tag: self.etag@,
            range: self.range,
        }
    }
}

/// What to do with a request for a file.
pub enum HathPlan {
    /// The key is not valid.
    Forbidden,
    /// The identifier names no file.
    NotFound,
    /// The browser has the file already.
    NotModified(ResponseHead),
    /// The file is sent, from the cache or from another client.
    Serve(ServePlan),
}

/// What is sent of the file that a request asks for.
pub open spec fn served(
    id: crate::cache_file::FileId,
    file_name: Seq<char>,
    range: Option<Seq<char>>,
    if_range: Option<Seq<char>>,
) -> ServeView {
    let tag = etag_of(id.hash);
    ServeView {
        id,
        media: crate::cache_file::media_of(id.tag),
        disposition: disposition(file_name),
        tag,
        range: chosen_range(
            match range {
                Some(header) => ranges_of(header, id.size as u64),
                None => None,
            },
            if_range,
            tag,
        ),
    }
}

/// The headers of the answer to a browser that has the file already.
pub open spec fn not_modified_headers(size: nat, tag: Seq<char>) -> Seq<(Seq<char>, Seq<char>)> {
    seq![
        ("cache-control"@, CACHE_HEADER@),
        ("content-length"@, crate::text::decimal(size)),
        ("etag"@, tag),
    ]
}

fn not_modified(size: u32, tag: &str) -> (r: ResponseHead)
    ensures
        r.status == 304,
        r.pairs() == not_modified_headers(size as nat, tag@),
{
    let mut head = ResponseHead::new(304);
    head.header("cache-control", CACHE_HEADER);
    head.header("content-length", u64_text(size as u64).as_str());
    head.header("etag", tag);
    assert(head.pairs() =~= not_modified_headers(size as nat, tag@));
    head
}

/// What to do with a request for a file, at a time of the server's clock.
pub fn hath(request: &HathRequest, now: i64, key: &str) -> (r: HathPlan)
    ensures
        ({
            let id = crate::cache_file::parse_file_id(request.file_id@);
            if !key_opens(keystamp(request.additional@), request.file_id@, now as int, key@) {
                r is Forbidden
            } else {
                match id {
                    None => r is NotFound,
                    Some(id) => if crate::text::opt_text(request.if_none_match) == Some(
                        etag_of(id.hash),
                    ) {
                        r matches HathPlan::NotModified(head) && head.status == 304 && head.pairs()
                            == not_modified_headers(id.size as nat, etag_of(id.hash))
                    } else {
                        r matches HathPlan::Serve(plan) && plan@ == served(
                            id,
                            request.file_name@,
                            crate::text::opt_text(request.range),
                            crate::text::opt_text(request.if_range),
                        ) && (plan@.range matches Some(range) ==> range_in(range, id.size as u64))
                    },
                }
            }
        }),
{
    if !check_key(request.additional.as_str(), request.file_id.as_str(), now, key) {
        return HathPlan::Forbidden;
    }
    let info = match CacheFileInfo::from_file_id(request.file_id.as_str()) {
        Some(info) => info,
        None => {
            return HathPlan::NotFound;
        },
    };
    let tag = etag(&info);
    match &request.if_none_match {
        Some(cached) => {
            if same_text(cached.as_str(), tag.as_str()) {
                return HathPlan::NotModified(not_modified(info.size(), tag.as_str()));
            }
        },
        None => {},
    }
    let ranges = match &request.range {
        Some(header) => parse_ranges(header.as_str(), info.size() as u64),
        None => None,
    };
    let range = choose_range(&ranges, &request.if_range, tag.as_str());
    let plan = ServePlan {
        content_type: info.mime_type(),
        content_disposition: content_disposition(request.file_name.as_str()),
        etag: tag,
        range,
        info,
    };
    assert(plan@ =~= served(
        plan.info@,
        request.file_name@,
        crate::text::opt_text(request.range),
        crate::text::opt_text(request.if_range),
    ));
    HathPlan::Serve(plan)
}

/// What the server is asked for a file that is not in the cache.
pub open spec fn source_query(additional: Seq<char>, file_id: Seq<char>) -> Seq<char> {
    let values = crate::route::request_values(crate::text::split_seq(additional, ';'));
    crate::params::value_or_empty(values, "fileindex"@) + ";"@ + crate::params::value_or_empty(
        values,
        "xres"@,
    ) + ";"@ + file_id
}

/// What the server is asked for a file that is not in the cache.
pub fn source_argument(request: &HathRequest) -> (r: String)
    ensures
        r@ == source_query(request.additional@, request.file_id@),
{
    let values = parse_additional(request.additional.as_str());
    RPCClient::sr_fetch(
        values.get_or_empty("fileindex"),
        values.get_or_empty("xres"),
        request.file_id.as_str(),
    )
}

/// The URL that is added to an error: none where the error has one, or where the text is not the URL
/// of a host.
pub fn err_with_url(has_url: bool, url: &str) -> (r: Option<String>)
    ensures
        crate::text::opt_text(r) == if !has_url && crate::url::url_host(url@) is Some {
            crate::url::url_parsed(url@)
        } else {
            None
        },
        r is Some <==> !has_url && crate::url::url_host(url@) is Some,
{
    if has_url {
        return None;
    }
    match url_host_str(url) {
        Some(_) => url_parse(url),
        None => None,
    }
}

/// What the cache has of a file.
#[derive(Clone, Copy, PartialEq, Eq, Structural, Debug)]
pub enum CacheFileResult {
    /// The file from its beginning.
    Full,
    /// The file from the first byte that was asked for.
    Partial,
    /// Nothing.
    NotFound,
}

/// The head of an answer with a file, and how many bytes of the file follow at most.
#[derive(Debug)]
pub struct FileResponse {
    pub head: ResponseHead,
    pub truncate: Option<u64>,
}

/// The headers that every answer with a file has.
pub open spec fn common_headers(v: ServeView) -> Seq<(Seq<char>, Seq<char>)> {
    seq![
        ("cache-control"@, CACHE_HEADER@),
        ("content-disposition"@, v.disposition),
        ("content-type"@, v.media),
        ("etag"@, v.tag),
    ]
}

/// The range that is served, given what the cache has: a file that starts at its beginning serves no
/// range that starts later.
pub open spec fn range_served(v: ServeView, found: CacheFileResult) -> Option<(u64, u64)> {
    match v.range {
        Some(range) if found == CacheFileResult::Full && range.0 != 0 => None,
        other => other,
    }
}

/// Which part of a file follows: `bytes first-last/size`.
pub open spec fn content_range(range: (u64, u64), size: nat) -> Seq<char> {
    "bytes "@ + crate::text::decimal(range.0 as nat) + "-"@ + crate::text::decimal(range.1 as nat)
        + "/"@ + crate::text::decimal(size)
}

/// The length of a range.
pub open spec fn range_len(range: (u64, u64)) -> nat {
    (range.1 - range.0 + 1) as nat
}

/// The headers of an answer from the cache.
pub open spec fn cached_headers(v: ServeView, range: Option<(u64, u64)>) -> Seq<
    (Seq<char>, Seq<char>),
> {
    match range {
        Some(range) => common_headers(v) + seq![
            ("accept-ranges"@, "bytes"@),
            ("content-length"@, crate::text::decimal(range_len(range))),
            ("content-range"@, content_range(range, v.id.size as nat)),
        ],
        None => common_headers(v) + seq![
            ("accept-ranges"@, "bytes"@),
            ("content-length"@, crate::text::decimal(v.id.size as nat)),
        ],
    }
}

impl ServePlan {
    fn common(&self, status: u16) -> (r: ResponseHead)
        ensures
            r.status == status,
            r.pairs() == common_headers(self@),
    {
        let mut head = ResponseHead::new(status);
        head.header("cache-control", CACHE_HEADER);
        head.header("content-disposition", self.content_disposition.as_str());
        head.header("content-type", self.content_type.as_str());
        head.header("etag", self.etag.as_str());
        assert(head.pairs() =~= common_headers(self@));
        head
    }

    /// The answer from the cache, `None` if the cache has nothing.
    pub fn cached(&self, found: CacheFileResult) -> (r: Option<FileResponse>)
        requires
            self@.range matches Some(range) ==> range_in(range, self@.id.size as u64),
        ensures
            match r {
                Some(response) => {
                    let range = range_served(self@, found);
                    &&& found != CacheFileResult::NotFound
                    &&& response.head.status == if range is Some {
                        206
                    } else {
                        200u16
                    }
                    &&& response.head.pairs() == cached_headers(self@, range)
                    &&& response.truncate == match range {
                        Some(range) => Some(range_len(range) as u64),
                        None => None,
                    }
                },
                None => found == CacheFileResult::NotFound,
            },
    {
        let range = match (found, self.range) {
            (CacheFileResult::NotFound, _) => {
                return None;
            },
            (CacheFileResult::Full, Some((start, end))) => if start != 0 {
                None
            } else {
                Some((start, end))
            },
            (_, range) => range,
        };
        let size = self.info.size();
        match range {
            Some((start, end)) => {
                let len: u64 = end - start + 1;
                let mut head = self.common(206);
                head.header("accept-ranges", "bytes");
                head.header("content-length", u64_text(len).as_str());
                let mut part = "bytes ".to_owned();
                push_u64(&mut part, start);
                part.append("-");
                push_u64(&mut part, end);
                part.append("/");
                push_u64(&mut part, size as u64);
                assert(part@ =~= content_range((start, end), self@.id.size as nat));
                head.header("content-range", part.as_str());
                assert(head.pairs() =~= cached_headers(self@, Some((start, end))));
                Some(FileResponse { head, truncate: Some(len) })
            },
            None => {
                let mut head = self.common(200);
                head.header("accept-ranges", "bytes");
                head.header("content-length", u64_text(size as u64).as_str());
                assert(head.pairs() =~= cached_headers(self@, None));
                Some(FileResponse { head, truncate: None })
            },
        }
    }

    /// The head of an answer with a file that is still being fetched: the whole file, whatever was
    /// asked for.
    pub fn proxied(&self) -> (r: ResponseHead)
        ensures
            r.status == 200,
            r.pairs() == common_headers(self@) + seq![
                ("content-length"@, crate::text::decimal(self@.id.size as nat)),
            ],
    {
        let mut head = self.common(200);
        head.header("content-length", u64_text(self.info.size() as u64).as_str());
        assert(head.pairs() =~= common_headers(self@) + seq![
            ("content-length"@, crate::text::decimal(self@.id.size as nat)),
        ]);
        head
    }
}

/// A range that is served is never longer than the file it is part of.
pub proof fn range_fits_file(range: (u64, u64), size: u64)
    requires
        range_in(range, size),
        size > 0,
    ensures
        1 <= range_len(range) <= size,
{
}

/// A key that opens a file at one time opens no file long before or after.
pub proof fn key_expires(
    stamp: (Seq<char>, Seq<char>),
    file_id: Seq<char>,
    now: int,
    later: int,
    key: Seq<char>,
)
    requires
        key_opens(stamp, file_id, now, key),
        later > now + 2 * KEY_TTL || later < now - 2 * KEY_TTL,
    ensures
        !key_opens(stamp, file_id, later, key),
{
}

/// Any beginning of the right signature opens a file, as long as its time is near.
pub proof fn right_key_opens(
    file_id: Seq<char>,
    key: Seq<char>,
    time: int,
    signature: Seq<char>,
    now: int,
)
    requires
        i64::MIN <= time <= i64::MAX,
        -KEY_TTL <= now - time <= KEY_TTL,
        signature.len() > 0,
        signature.is_prefix_of(
            crate::util::hash_text(key_text(crate::text::decimal_int(time), file_id, key)),
        ),
    ensures
        key_opens((crate::text::decimal_int(time), signature), file_id, now, key),
{
    crate::text::lemma_parse_decimal_int(time, i64::MIN as int, i64::MAX as int);
    if time >= 0 {
        crate::text::lemma_digits_of_decimal(time as nat);
    }
}

/// The time and the signature of a request are those that its key was made with: a time that is not
/// negative, and a signature in hexadecimal.
pub proof fn key_of_request(time: nat, signature: Seq<char>)
    requires
        forall|i: int|
            0 <= i < signature.len() ==> crate::digest::hex_value(#[trigger] signature[i]) is Some,
    ensures
        keystamp("keystamp="@ + crate::text::decimal(time) + "-"@ + signature) == (
            crate::text::decimal(time),
            signature,
        ),
{
    reveal_strlit("keystamp=");
    reveal_strlit("keystamp");
    reveal_strlit("-");
    let number = crate::text::decimal(time);
    crate::text::lemma_digits_of_decimal(time);
    let stamp = number + "-"@ + signature;
    let whole = "keystamp="@ + number + "-"@ + signature;
    // The parts hold none of the separators.
    assert forall|i: int| 0 <= i < whole.len() implies whole[i] != ';' by {
        if i >= 9 && i < 9 + number.len() {
            assert(whole[i] == number[i - 9]);
        } else if i > 9 + number.len() {
            assert(whole[i] == signature[i - 10 - number.len()]);
        }
    }
    assert(!whole.contains(';'));
    crate::text::split_of_join(seq![whole], ';');
    assert(crate::text::join_seq(seq![whole], seq![';']) == whole);
    assert forall|i: int| 0 <= i < stamp.len() implies stamp[i] != '=' by {
        if i < number.len() {
            assert(stamp[i] == number[i]);
        } else if i > number.len() {
            assert(stamp[i] == signature[i - 1 - number.len()]);
        }
    }
    assert(!stamp.contains('='));
    assert(!"keystamp"@.contains('='));
    let pair = seq!["keystamp"@, stamp];
    assert forall|i: int| 0 <= i < pair.len() implies !(#[trigger] pair[i]).contains('=') by {}
    crate::text::split_of_join(pair, '=');
    reveal_with_fuel(crate::text::join_seq, 3);
    assert(pair.drop_last() =~= seq!["keystamp"@]);
    assert(crate::text::join_seq(pair, seq!['=']) =~= whole);
    let halves = seq![number, signature];
    assert forall|i: int| 0 <= i < halves.len() implies !(#[trigger] halves[i]).contains('-') by {
        if halves[i].contains('-') {
            let k = halves[i].index_of('-');
            assert(halves[i][k] == '-');
        }
    }
    crate::text::split_of_join(halves, '-');
    assert(halves.drop_last() =~= seq![number]);
    assert(crate::text::join_seq(halves, seq!['-']) =~= stamp);
    let pieces = seq![whole];
    assert(pieces.drop_last() =~= Seq::empty());
    assert(crate::route::request_values(Seq::<Seq<char>>::empty()) =~= Map::empty());
    assert(crate::route::request_values(pieces) == Map::<Seq<char>, Seq<char>>::empty().insert(
        "keystamp"@,
        stamp,
    ));
}

/// The missing files that are being fetched, by their hashes.
#[derive(Debug)]
pub struct DownloadState {
    active: Vec<[u8; 20]>,
}

/// The hashes of a list.
spec fn hashes(list: Seq<[u8; 20]>) -> Seq<Seq<u8>> {
    list.map_values(|h: [u8; 20]| h@)
}

impl View for DownloadState {
    type V = Set<Seq<u8>>;

    closed spec fn view(&self) -> Set<Seq<u8>> {
        hashes(self.active@).to_set()
    }
}

impl DownloadState {
    /// No hash stands in the list twice.
    pub closed spec fn wf(&self) -> bool {
        hashes(self.active@).no_duplicates()
    }

    /// Nothing is being fetched.
    pub fn new() -> (r: DownloadState)
        ensures
            r.wf(),
            r@ == Set::<Seq<u8>>::empty(),
    {
        let r = DownloadState { active: Vec::new() };
        assert(hashes(r.active@) =~= Seq::empty());
        assert(r@ =~= Set::empty());
        r
    }

    fn position(&self, hash: &[u8; 20]) -> (r: Option<usize>)
        ensures
            match r {
                Some(i) => i < self.active@.len() && hashes(self.active@)[i as int] == hash@,
                None => !self@.contains(hash@),
            },
    {
        for i in 0..self.active.len()
            invariant
                forall|j: int| 0 <= j < i ==> #[trigger] hashes(self.active@)[j] != hash@,
        {
            assert(hashes(self.active@)[i as int] == self.active@[i as int]@);
            if same_hash(&self.active[i], hash) {
                return Some(i);
            }
        }
        None
    }

    /// A request wants a missing file: whether it is the one that fetches it. The others wait for it.
    pub fn begin(&mut self, hash: &[u8; 20]) -> (r: bool)
        requires
            old(self).wf(),
        ensures
            final(self).wf(),
            r == !old(self)@.contains(hash@),
            final(self)@ == old(self)@.insert(hash@),
    {
        match self.position(hash) {
            Some(i) => {
                assert(self@.contains(hash@));
                assert(self@ =~= old(self)@.insert(hash@));
                false
            },
            None => {
                let ghost before = hashes(self.active@);
                self.active.push(*hash);
                let ghost after = hashes(self.active@);
                assert(after =~= before.push(hash@));
                assert forall|i: int, j: int|
                    0 <= i < after.len() && 0 <= j < after.len() && i != j implies after[i] != after[j] by {
                    if i == before.len() {
                        assert(before.to_set().contains(before[j]));
                    } else if j == before.len() {
                        assert(before.to_set().contains(before[i]));
                    }
                }
                assert(self@ =~= old(self)@.insert(hash@)) by {
                    assert forall|h: Seq<u8>| old(self)@.insert(hash@).contains(h) implies self@.contains(h) by {
                        if h == hash@ {
                            assert(after[before.len() as int] == h);
                        } else {
                            let k = before.index_of(h);
                            assert(after[k] == h);
                        }
                    }
                }
                true
            },
        }
    }

    /// A file is no longer being fetched, with or without success.
    pub fn end(&mut self, hash: &[u8; 20])
        requires
            old(self).wf(),
        ensures
            final(self).wf(),
            final(self)@ == old(self)@.remove(hash@),
    {
        match self.position(hash) {
            Some(i) => {
                let ghost before = hashes(self.active@);
                self.active.remove(i);
                let ghost after = hashes(self.active@);
                assert(after =~= before.remove(i as int));
                assert forall|a: int, b: int|
                    0 <= a < after.len() && 0 <= b < after.len() && a != b implies after[a] != after[b] by {
                    let x = if a < i { a } else { a + 1 };
                    let y = if b < i { b } else { b + 1 };
                    assert(before[x] != before[y]);
                }
                assert(self@ =~= old(self)@.remove(hash@)) by {
                    assert forall|h: Seq<u8>| old(self)@.remove(hash@).contains(h) implies self@.contains(h) by {
                        let k = before.index_of(h);
                        let x = if k < i { k } else { k - 1 };
                        assert(after[x] == h);
                    }
                    assert forall|h: Seq<u8>| self@.contains(h) implies old(self)@.remove(hash@).contains(h) by {
                        let k = after.index_of(h);
                        let x = if k < i { k } else { k + 1 };
                        assert(before[x] == h);
                        assert(before[x] != before[i as int]);
                    }
                }
            },
            None => {
                assert(self@ =~= old(self)@.remove(hash@));
            },
        }
    }
}

/// How often a missing file is asked for.
pub const DOWNLOAD_TRIES: u32 = 3;

/// How far the download of a missing file has come.
#[verifier::ext_equal]
pub struct DownloadView {
    pub file_size: u64,
    /// The bytes that were written.
    pub written: Seq<u8>,
    /// How many bytes this try has brought.
    pub download: nat,
    /// The try, counted from zero.
    pub retry: nat,
    /// The source of the next try, before it is brought into the list.
    pub source: nat,
    pub use_proxy: bool,
}

impl DownloadView {
    pub open spec fn wf(self) -> bool {
        self.download <= self.written.len() < crate::digest::DIGEST_LIMIT && self.retry
            <= DOWNLOAD_TRIES && self.source <= self.retry + 1
    }

    /// Whether the current try has not asked a source yet.
    pub open spec fn between_tries(self) -> bool {
        self.source <= self.retry
    }

    /// The part of some bytes that is not written yet.
    pub open spec fn fresh(self, bytes: Seq<u8>) -> Seq<u8> {
        if self.download + bytes.len() <= self.written.len() {
            Seq::empty()
        } else {
            bytes.skip(self.written.len() - self.download)
        }
    }
}

/// The download of a missing file. A try that fails is followed by another, which skips what was
/// written before.
pub struct Download {
    hasher: aws_lc_rs::digest::Context,
    file_size: u64,
    progress: u64,
    download: u64,
    retry: u32,
    source: usize,
    use_proxy: bool,
}

impl View for Download {
    type V = DownloadView;

    closed spec fn view(&self) -> DownloadView {
        DownloadView {
            file_size: self.file_size,
            written: crate::digest::context_bytes(self.hasher),
            download: self.download as nat,
            retry: self.retry as nat,
            source: self.source as nat,
            use_proxy: self.use_proxy,
        }
    }
}

/// Why a try failed.
#[derive(Clone, Copy, PartialEq, Eq, Structural, Debug)]
pub enum TryFailure {
    /// The file on the disk could not be opened. The source was not asked.
    File,
    /// The source could not be asked, or refused.
    Request { connect: bool },
    /// The source broke off.
    Stream,
}

impl Download {
    /// The progress is the number of bytes written.
    pub closed spec fn inv(&self) -> bool {
        self.progress == crate::digest::context_bytes(self.hasher).len()
    }

    /// Nothing was fetched yet.
    pub fn new(info: &CacheFileInfo, has_proxy: bool) -> (r: Download)
        ensures
            r.inv(),
            r@.wf(),
            r@.between_tries(),
            r@ == (DownloadView {
                file_size: info@.size as u64,
                written: Seq::empty(),
                download: 0,
                retry: 0,
                source: 0,
                use_proxy: has_proxy,
            }),
    {
        Download {
            hasher: context_new(),
            file_size: info.size() as u64,
            progress: 0,
            download: 0,
            retry: 0,
            source: 0,
            use_proxy: has_proxy,
        }
    }

    /// How many bytes were written. The next try writes from there.
    pub fn progress(&self) -> (r: u64)
        requires
            self.inv(),
        ensures
            r == self@.written.len(),
    {
        self.progress
    }

    /// Whether there is another try.
    pub fn may_try(&self) -> (r: bool)
        ensures
            r == (self@.retry < DOWNLOAD_TRIES),
    {
        self.retry < DOWNLOAD_TRIES
    }

    /// Whether the next try goes through the proxy.
    pub fn use_proxy(&self) -> (r: bool)
        ensures
            r == self@.use_proxy,
    {
        self.use_proxy
    }

    /// A try starts: the place of its source among so many. The sources take turns.
    pub fn start_try(&mut self, sources: usize) -> (r: usize)
        requires
            old(self).inv(),
            old(self)@.wf(),
            old(self)@.retry < DOWNLOAD_TRIES,
            old(self)@.between_tries(),
            sources > 0,
        ensures
            final(self).inv(),
            final(self)@.wf(),
            r == old(self)@.source as int % sources as int,
            final(self)@ == (DownloadView { download: 0, source: old(self)@.source + 1, ..old(self)@ }),
            r < sources,
    {
        let r: usize = self.source % sources;
        self.source = self.source + 1;
        self.download = 0;
        r
    }

    /// From where on some bytes are to be written: what was written before is skipped.
    pub fn to_write(&self, bytes: &[u8]) -> (r: usize)
        requires
            self.inv(),
            self@.wf(),
            self@.download + bytes@.len() < crate::digest::DIGEST_LIMIT,
        ensures
            r <= bytes@.len(),
            bytes@.skip(r as int) == self@.fresh(bytes@),
    {
        let total: u64 = self.download + bytes.len() as u64;
        if total <= self.progress {
            assert(bytes@.skip(bytes@.len() as int) =~= Seq::empty());
            bytes.len()
        } else {
            let write_size: u64 = total - self.progress;
            bytes.len() - write_size as usize
        }
    }

    /// Takes note of bytes that came, the fresh part of which was written.
    pub fn written(&mut self, bytes: &[u8])
        requires
            old(self).inv(),
            old(self)@.wf(),
            old(self)@.download + bytes@.len() < crate::digest::DIGEST_LIMIT,
        ensures
            final(self).inv(),
            final(self)@.wf(),
            final(self)@ == (DownloadView {
                written: old(self)@.written + old(self)@.fresh(bytes@),
                download: old(self)@.download + bytes@.len(),
                ..old(self)@
            }),
    {
        let start = self.to_write(bytes);
        let data = slice_subrange(bytes, start, bytes.len());
        assert(data@ =~= bytes@.skip(start as int));
        context_update(&mut self.hasher, data);
        self.progress = self.progress + data.len() as u64;
        self.download = self.download + bytes.len() as u64;
    }

    /// The try failed. Without luck the proxy is given up: at once if it cannot be reached, else after
    /// the second try.
    pub fn fail(&mut self, failure: TryFailure)
        requires
            old(self).inv(),
            old(self)@.wf(),
            old(self)@.retry < DOWNLOAD_TRIES,
        ensures
            final(self).inv(),
            final(self)@.wf(),
            final(self)@.between_tries(),
            final(self)@ == (DownloadView {
                retry: old(self)@.retry + 1,
                use_proxy: old(self)@.use_proxy && !(failure matches TryFailure::Request { connect }
                    && (connect || old(self)@.retry == 1)),
                ..old(self)@
            }),
    {
        match failure {
            TryFailure::Request { connect } => {
                if connect || self.retry == 1 {
                    self.use_proxy = false;
                }
            },
            _ => {},
        }
        self.retry = self.retry + 1;
    }

    /// The source has sent all it has: whether the file is complete. If not, the try has failed.
    pub fn end_of_stream(&mut self) -> (r: bool)
        requires
            old(self).inv(),
            old(self)@.wf(),
            old(self)@.retry < DOWNLOAD_TRIES,
        ensures
            final(self).inv(),
            final(self)@.wf(),
            !r ==> final(self)@.between_tries(),
            r == (old(self)@.written.len() == old(self)@.file_size),
            final(self)@ == if r {
                old(self)@
            } else {
                (DownloadView { retry: old(self)@.retry + 1, ..old(self)@ })
            },
    {
        if self.progress == self.file_size {
            true
        } else {
            self.retry = self.retry + 1;
            false
        }
    }

    /// Whether the file goes into the cache: it is what its name promises.
    pub fn finish(self, info: &CacheFileInfo) -> (r: bool)
        ensures
            r == (crate::digest::sha1_digest(self@.written) == info@.hash),
    {
        let actual = context_finish(self.hasher);
        let expected = info.hash();
        same_bytes(actual.as_slice(), array_as_slice(&expected))
    }
}

/// A download that is taken up again leaves no gap and writes nothing twice: as long as each source
/// sends the same file from its beginning, what is written is the beginning of that file.
pub proof fn resumed_download_has_no_gap(v: DownloadView, bytes: Seq<u8>, file: Seq<u8>)
    requires
        v.wf(),
        v.written.is_prefix_of(file),
        v.download + bytes.len() <= file.len(),
        bytes == file.subrange(v.download as int, (v.download + bytes.len()) as int),
    ensures
        (v.written + v.fresh(bytes)).is_prefix_of(file),
        (v.written + v.fresh(bytes)).len() >= v.download + bytes.len(),
{
    let after = v.written + v.fresh(bytes);
    assert(file.subrange(0, v.written.len() as int) =~= v.written);
    if v.download + bytes.len() <= v.written.len() {
        assert(after =~= v.written);
    } else {
        assert forall|i: int| 0 <= i < after.len() implies after[i] == file[i] by {
            if i < v.written.len() {
                assert(file.subrange(0, v.written.len() as int)[i] == file[i]);
            }
        }
        assert(file.subrange(0, after.len() as int) =~= after);
    }
}

/// A file that was fetched and put into the cache passes every later check: a scan that comes upon it
/// under its name takes it for the file it is, and its content is what that name promises.
pub proof fn kept_file_passes_checks(v: DownloadView, id: crate::cache_file::FileId, found: ScanEntry)
    requires
        id.valid(),
        v.file_size == id.size,
        v.written.len() == v.file_size,
        crate::digest::sha1_digest(v.written) == id.hash,
        crate::cache_manager::entry_decided(
            found,
            Some(id.name()),
            false,
            v.written.len() as u64,
            true,
        ),
    ensures
        found matches ScanEntry::Verify(info) && crate::digest::sha1_digest(v.written) == info@.hash
            && info@.name() == id.name(),
{
    crate::cache_file::name_reads_back(id);
}

/// A file that is sent while it is being fetched: what was read and what was written of it.
#[derive(Debug)]
pub struct ProxyStream {
    read_off: u64,
    write_off: u64,
    file_size: u64,
}

/// What to do next for a file that is sent while it is being fetched.
#[derive(Clone, Copy, PartialEq, Eq, Structural, Debug)]
pub enum ProxyStep {
    /// Read what was written.
    Read,
    /// Wait until more is written.
    Wait,
    /// The whole file was sent.
    End,
}

impl ProxyStream {
    /// What was read, what was written, and the size of the file.
    pub closed spec fn offsets(&self) -> (u64, u64, u64) {
        (self.read_off, self.write_off, self.file_size)
    }

    /// Nothing was sent yet, and so much is written.
    pub fn new(file_size: u64, written: u64) -> (r: ProxyStream)
        ensures
            r.offsets() == (0u64, written, file_size),
    {
        ProxyStream { read_off: 0, write_off: written, file_size }
    }

    /// What to do next.
    pub fn step(&self) -> (r: ProxyStep)
        ensures
            r == if self.offsets().1 > self.offsets().0 {
                ProxyStep::Read
            } else {
                ProxyStep::Wait
            },
    {
        if self.write_off > self.read_off {
            ProxyStep::Read
        } else {
            ProxyStep::Wait
        }
    }

    /// More was written.
    pub fn progress(&mut self, written: u64)
        ensures
            final(self).offsets() == (old(self).offsets().0, written, old(self).offsets().2),
    {
        self.write_off = written;
    }

    /// Reading failed. The reader is told, and reading goes on.
    pub fn read_failed(&self) -> (r: ProxyStep)
        ensures
            r == if self.offsets().0 == self.offsets().2 {
                ProxyStep::End
            } else if self.offsets().1 > self.offsets().0 {
                ProxyStep::Read
            } else {
                ProxyStep::Wait
            },
    {
        if self.read_off == self.file_size {
            ProxyStep::End
        } else {
            self.step()
        }
    }

    /// So many bytes were read. The file is sent when all of it was read.
    pub fn read(&mut self, n: usize) -> (r: ProxyStep)
        requires
            old(self).offsets().0 + n <= u64::MAX,
        ensures
            final(self).offsets() == (
                (old(self).offsets().0 + n) as u64,
                old(self).offsets().1,
                old(self).offsets().2,
            ),
            r == if n > 0 && final(self).offsets().0 == final(self).offsets().2 {
                ProxyStep::End
            } else if final(self).offsets().1 > final(self).offsets().0 {
                ProxyStep::Read
            } else {
                ProxyStep::Wait
            },
    {
        self.read_off = self.read_off + n as u64;
        if n > 0 && self.read_off == self.file_size {
            ProxyStep::End
        } else {
            self.step()
        }
    }
}

/// Whether a text tells the first byte, the last byte and the size of a file, as a range header does:
/// `bytes`, a space, the first byte, a hyphen, the last byte, a slash and the size.
pub open spec fn tells_range(text: Seq<char>, first: nat, last: nat, size: nat) -> bool {
    let halves = crate::text::split_seq(text, ' ');
    let ends = crate::text::split_seq(halves[1], '/');
    let bytes = crate::text::split_seq(ends[0], '-');
    &&& halves.len() == 2 && ends.len() == 2 && bytes.len() == 2
    &&& halves[0] == seq!['b', 'y', 't', 'e', 's']
    &&& crate::text::digits_value(bytes[0]) == Some(first)
    &&& crate::text::digits_value(bytes[1]) == Some(last)
    &&& crate::text::digits_value(ends[1]) == Some(size)
}

/// The range header of a part of a file, taken apart again, tells the first byte, the last byte and the
/// size of the whole file.
pub proof fn content_range_reads_back(range: (u64, u64), size: nat)
    ensures
        tells_range(content_range(range, size), range.0 as nat, range.1 as nat, size),
{
    reveal_strlit("bytes ");
    reveal_strlit("-");
    reveal_strlit("/");
    let a = crate::text::decimal(range.0 as nat);
    let b = crate::text::decimal(range.1 as nat);
    let c = crate::text::decimal(size);
    let word = seq!['b', 'y', 't', 'e', 's'];
    let part = a + seq!['-'] + b;
    let rest = part + seq!['/'] + c;
    crate::text::numbers_hold_digits(range.0 as int, ' ');
    crate::text::numbers_hold_digits(range.1 as int, ' ');
    crate::text::numbers_hold_digits(size as int, ' ');
    crate::text::numbers_hold_digits(range.0 as int, '/');
    crate::text::numbers_hold_digits(range.1 as int, '/');
    crate::text::numbers_hold_digits(size as int, '/');
    crate::text::lemma_digits_of_decimal(range.0 as nat);
    crate::text::lemma_digits_of_decimal(range.1 as nat);
    crate::text::lemma_digits_of_decimal(size);
    assert(!part.contains('/') && !part.contains(' ')) by {
        assert forall|i: int| 0 <= i < part.len() implies part[i] != '/' && part[i] != ' ' by {
            if i < a.len() {
                assert(a[i] == part[i]);
                assert(a.contains(a[i]));
            } else if i > a.len() {
                assert(b[i - a.len() - 1] == part[i]);
                assert(b.contains(b[i - a.len() - 1]));
            }
        }
    }
    assert(!rest.contains(' ')) by {
        assert forall|i: int| 0 <= i < rest.len() implies rest[i] != ' ' by {
            if i < part.len() {
                assert(part[i] == rest[i]);
                assert(part.contains(part[i]));
            } else if i > part.len() {
                assert(c[i - part.len() - 1] == rest[i]);
                assert(c.contains(c[i - part.len() - 1]));
            }
        }
    }
    assert(!word.contains(' '));
    crate::text::split_of_pair(word, rest, ' ');
    crate::text::split_of_pair(part, c, '/');
    crate::text::split_of_pair(a, b, '-');
    assert(content_range(range, size) =~= word + seq![' '] + rest);
}

proof fn lemma_header_names()
    ensures
        "cache-control"@[1] == 'a' && "cache-control"@.len() == 13,
        "content-disposition"@.len() == 19,
        "content-type"@.len() == 12,
        "etag"@.len() == 4,
        "accept-ranges"@[0] == 'a' && "accept-ranges"@.len() == 13,
        "content-length"@.len() == 14,
        "content-range"@[0] == 'c' && "content-range"@[1] == 'o' && "content-range"@.len() == 13,
        "cache-control"@[0] == 'c',
{
    reveal_strlit("cache-control");
    reveal_strlit("content-disposition");
    reveal_strlit("content-type");
    reveal_strlit("etag");
    reveal_strlit("accept-ranges");
    reveal_strlit("content-length");
    reveal_strlit("content-range");
}

/// An answer from the cache tells what follows. A range that was asked for comes alone: as many bytes as
/// from its first to its last, that number as the length, and the place of the range in the whole file.
/// Else the whole file comes, with its size as the length, and no word of a range; so it does where the
/// range starts later than what the cache has at hand.
pub proof fn answer_tells_what_follows(plan: &ServePlan, found: CacheFileResult, r: Option<FileResponse>)
    requires
        call_ensures(ServePlan::cached, (plan, found), r),
        plan@.range matches Some(range) ==> range_in(range, plan@.id.size as u64),
    ensures
        r is None <==> found == CacheFileResult::NotFound,
        r matches Some(answer) ==> {
            let pairs = answer.head.pairs();
            let size = plan@.id.size as nat;
            &&& crate::route::says(pairs, "etag"@, plan.etag@)
            &&& crate::route::says(pairs, "content-type"@, plan.content_type@)
            &&& crate::route::says(pairs, "content-disposition"@, plan.content_disposition@)
            &&& crate::route::says(pairs, "cache-control"@, "public, max-age=31536000"@)
            &&& crate::route::says(pairs, "accept-ranges"@, "bytes"@)
            &&& match plan.range {
                Some((first, last)) if first == 0 || found == CacheFileResult::Partial => {
                    &&& answer.head.status == 206
                    &&& answer.truncate == Some((last - first + 1) as u64)
                    &&& crate::route::says(
                        pairs,
                        "content-length"@,
                        crate::text::decimal((last - first + 1) as nat),
                    )
                    &&& exists|text: Seq<char>|
                        crate::route::says(pairs, "content-range"@, text) && #[trigger] tells_range(
                            text,
                            first as nat,
                            last as nat,
                            size,
                        )
                },
                _ => {
                    &&& answer.head.status == 200
                    &&& answer.truncate is None
                    &&& crate::route::says(pairs, "content-length"@, crate::text::decimal(size))
                    &&& crate::route::silent(pairs, "content-range"@)
                },
            }
        },
{
    if r is Some {
        let answer = r->0;
        let pairs = answer.head.pairs();
        lemma_header_names();
        let range = range_served(plan@, found);
        assert(pairs[0] == ("cache-control"@, CACHE_HEADER@));
        assert(pairs[1] == ("content-disposition"@, plan.content_disposition@));
        assert(pairs[2] == ("content-type"@, plan.content_type@));
        assert(pairs[3] == ("etag"@, plan.etag@));
        assert(pairs[4] == ("accept-ranges"@, "bytes"@));
        match range {
            Some(range) => {
                content_range_reads_back(range, plan@.id.size as nat);
                assert(pairs[5] == ("content-length"@, crate::text::decimal(range_len(range))));
                assert(pairs[6] == ("content-range"@, content_range(range, plan@.id.size as nat)));
                assert(crate::route::says(
                    pairs,
                    "content-range"@,
                    content_range(range, plan@.id.size as nat),
                ));
            },
            None => {
                assert(pairs[5] == ("content-length"@, crate::text::decimal(plan@.id.size as nat)));
            },
        }
    }
}

/// A file that is still being fetched is sent as a whole, whatever was asked for: its size is the length,
/// and there is no word of a range.
pub proof fn fetched_file_is_sent_whole(plan: &ServePlan, r: ResponseHead)
    requires
        call_ensures(ServePlan::proxied, (plan,), r),
    ensures
        r.status == 200,
        crate::route::says(r.pairs(), "content-length"@, crate::text::decimal(plan@.id.size as nat)),
        crate::route::says(r.pairs(), "etag"@, plan.etag@),
        crate::route::says(r.pairs(), "content-type"@, plan.content_type@),
        crate::route::says(r.pairs(), "content-disposition"@, plan.content_disposition@),
        crate::route::silent(r.pairs(), "content-range"@),
        crate::route::silent(r.pairs(), "accept-ranges"@),
{
    lemma_header_names();
    let pairs = r.pairs();
    assert(pairs[0] == ("cache-control"@, CACHE_HEADER@));
    assert(pairs[1] == ("content-disposition"@, plan.content_disposition@));
    assert(pairs[2] == ("content-type"@, plan.content_type@));
    assert(pairs[3] == ("etag"@, plan.etag@));
    assert(pairs[4] == ("content-length"@, crate::text::decimal(plan@.id.size as nat)));
}

/// What a key is signed with: its time, the file and the secret, with hyphens between them, and a fixed
/// word at the end.
pub open spec fn signed_for(time: Seq<char>, file_id: Seq<char>, key: Seq<char>) -> Seq<char> {
    crate::text::join_seq(
        seq![time, file_id, key, seq!['h', 'o', 't', 'l', 'i', 'n', 'k', 't', 'h', 'i', 's']],
        seq!['-'],
    )
}

proof fn lemma_signed_for(time: Seq<char>, file_id: Seq<char>, key: Seq<char>)
    ensures
        key_text(time, file_id, key) == signed_for(time, file_id, key),
{
    reveal_strlit("-");
    reveal_strlit("-hotlinkthis");
    let word = seq!['h', 'o', 't', 'l', 'i', 'n', 'k', 't', 'h', 'i', 's'];
    let parts = seq![time, file_id, key, word];
    reveal_with_fuel(crate::text::join_seq, 5);
    assert(parts.drop_last() =~= seq![time, file_id, key]);
    assert(parts.drop_last().drop_last() =~= seq![time, file_id]);
    assert(parts.drop_last().drop_last().drop_last() =~= seq![time]);
    assert(key_text(time, file_id, key) =~= signed_for(time, file_id, key));
}

/// A key opens the file it was signed for, with this client's secret, for a quarter of an hour before and
/// after its time, and nothing else.
pub proof fn key_opens_one_file(time: int, signature: Seq<char>, file_id: Seq<char>, now: int, key: Seq<char>)
    requires
        i64::MIN <= time <= i64::MAX,
    ensures
        key_opens((crate::text::decimal_int(time), signature), file_id, now, key) <==> -900 <= now - time
            <= 900 && signature.len() > 0 && signature.is_prefix_of(
            crate::util::hash_text(signed_for(crate::text::decimal_int(time), file_id, key)),
        ),
{
    lemma_signed_for(crate::text::decimal_int(time), file_id, key);
    crate::text::lemma_parse_decimal_int(time, i64::MIN as int, i64::MAX as int);
    if time >= 0 {
        crate::text::lemma_digits_of_decimal(time as nat);
    }
}

/// Different files, secrets or times are signed differently: what is signed tells the file from the
/// others, as long as the secret and the time are the same, and so on.
pub proof fn signed_texts_differ(
    time: Seq<char>,
    file_id: Seq<char>,
    key: Seq<char>,
    other: Seq<char>,
)
    ensures
        signed_for(time, file_id, key) == signed_for(time, other, key) ==> file_id == other,
        signed_for(time, file_id, key) == signed_for(time, file_id, other) ==> key == other,
        signed_for(time, file_id, key) == signed_for(other, file_id, key) ==> time == other,
{
    lemma_signed_for(time, file_id, key);
    lemma_signed_for(time, other, key);
    lemma_signed_for(time, file_id, other);
    lemma_signed_for(other, file_id, key);
    reveal_strlit("-");
    reveal_strlit("-hotlinkthis");
    let t = key_text(time, file_id, key);
    let n = time.len() as int;
    if t == key_text(time, other, key) {
        assert(t.len() == n + 1 + other.len() + 1 + key.len() + 12);
        assert(t.subrange(n + 1, n + 1 + file_id.len()) =~= file_id);
        assert(t.subrange(n + 1, n + 1 + other.len()) =~= other);
    }
    if t == key_text(time, file_id, other) {
        let m = n + 1 + file_id.len() + 1;
        assert(t.len() == m + other.len() + 12);
        assert(t.subrange(m, m + key.len()) =~= key);
        assert(t.subrange(m, m + other.len()) =~= other);
    }
    if t == key_text(other, file_id, key) {
        assert(t.len() == other.len() + 1 + file_id.len() + 1 + key.len() + 12);
        assert(t.subrange(0, n) =~= time);
        assert(t.subrange(0, other.len() as int) =~= other);
    }
}

/// A request carries its key among its values, and is refused unless the key opens the file: the key's
/// time is within a quarter of an hour, and its signature begins the one for this file and this client's
/// secret. Whatever stands around the key makes no difference.
pub proof fn request_needs_right_key(
    request: &HathRequest,
    now: i64,
    key: &str,
    r: HathPlan,
    pieces: Seq<Seq<char>>,
    i: int,
    time: nat,
    signature: Seq<char>,
)
    requires
        call_ensures(hath, (request, now, key), r),
        request.additional@ == crate::text::join_seq(pieces, seq![';']),
        forall|j: int| 0 <= j < pieces.len() ==> !(#[trigger] pieces[j]).contains(';'),
        0 <= i < pieces.len(),
        time <= i64::MAX,
        pieces[i] == "keystamp"@ + seq!['='] + (crate::text::decimal(time) + seq!['-'] + signature),
        !signature.contains('='),
        !signature.contains('-'),
        forall|j: int| i < j < pieces.len() ==> !"keystamp"@.push('=').is_prefix_of(#[trigger] pieces[j]),
    ensures
        r is Forbidden <==> !(-900 <= now - time <= 900 && signature.len() > 0 && signature.is_prefix_of(
            crate::util::hash_text(signed_for(crate::text::decimal(time), request.file_id@, key@)),
        )),
        r is NotFound ==> crate::cache_file::parse_file_id(request.file_id@) is None,
{
    reveal_strlit("keystamp");
    crate::text::split_of_join(pieces, ';');
    let number = crate::text::decimal(time);
    let stamp = number + seq!['-'] + signature;
    crate::text::numbers_hold_digits(time as int, '=');
    assert(!stamp.contains('=')) by {
        assert forall|k: int| 0 <= k < stamp.len() implies stamp[k] != '=' by {
            if k < number.len() {
                assert(number.contains(number[k]));
            } else if k > number.len() {
                assert(signature.contains(signature[k - number.len() - 1]));
            }
        }
    }
    assert(!"keystamp"@.contains('='));
    crate::route::last_pair_gives_value(pieces, i, "keystamp"@, stamp);
    crate::text::split_of_pair(number, signature, '-');
    assert(keystamp(request.additional@) == (number, signature));
    key_opens_one_file(time as int, signature, request.file_id@, now as int, key@);
}

/// A request without a key is refused, whatever it asks for.
pub proof fn request_without_key_is_refused(
    request: &HathRequest,
    now: i64,
    key: &str,
    r: HathPlan,
    pieces: Seq<Seq<char>>,
)
    requires
        call_ensures(hath, (request, now, key), r),
        request.additional@ == crate::text::join_seq(pieces, seq![';']),
        pieces.len() >= 1,
        forall|j: int| 0 <= j < pieces.len() ==> !(#[trigger] pieces[j]).contains(';'),
        forall|j: int| 0 <= j < pieces.len() ==> !"keystamp"@.push('=').is_prefix_of(#[trigger] pieces[j]),
    ensures
        r is Forbidden,
{
    crate::text::split_of_join(pieces, ';');
    crate::route::no_pair_gives_no_value(pieces, "keystamp"@);
    assert(crate::text::split_seq(Seq::<char>::empty(), '-') =~= seq![Seq::<char>::empty()]);
}

/// A browser that sends back the tag of a file is told that it has the file already, without the file
/// being sent; one that sends another tag, or none, is sent the file.
pub proof fn known_file_is_not_sent_again(
    first: &HathRequest,
    again: &HathRequest,
    now: i64,
    key: &str,
    plan: ServePlan,
    r: HathPlan,
)
    requires
        call_ensures(hath, (first, now, key), HathPlan::Serve(plan)),
        call_ensures(hath, (again, now, key), r),
        again.file_id@ == first.file_id@,
        again.additional@ == first.additional@,
    ensures
        crate::text::opt_text(again.if_none_match) == Some(plan.etag@) <==> r is NotModified,
        r matches HathPlan::NotModified(head) ==> head.status == 304 && crate::route::says(
            head.pairs(),
            "etag"@,
            plan.etag@,
        ) && crate::route::says(
            head.pairs(),
            "content-length"@,
            crate::text::decimal(plan.info@.size as nat),
        ) && crate::route::says(head.pairs(), "cache-control"@, "public, max-age=31536000"@),
        r matches HathPlan::Serve(other) ==> other.info@ == plan.info@ && other.etag@ == plan.etag@
            && other.content_type@ == plan.content_type@,
        r is NotModified || r is Serve,
{
    lemma_header_names();
    match r {
        HathPlan::NotModified(head) => {
            let pairs = head.pairs();
            assert(pairs[0] == ("cache-control"@, CACHE_HEADER@));
            assert(pairs[1] == ("content-length"@, crate::text::decimal(plan.info@.size as nat)));
            assert(pairs[2] == ("etag"@, plan.etag@));
        },
        _ => {},
    }
}

/// What is served is the file that was asked for, under its media type, with a tag that is made from the
/// first four bytes of its hash, and with a disposition that names it as it was asked for where a header
/// can hold that name.
pub proof fn served_file_is_the_one_asked_for(request: &HathRequest, now: i64, key: &str, plan: ServePlan)
    requires
        call_ensures(hath, (request, now, key), HathPlan::Serve(plan)),
    ensures
        crate::cache_file::parse_file_id(request.file_id@) == Some(plan.info@),
        plan.content_type@ == crate::cache_file::media_of(plan.info@.tag),
        plan.etag@.len() == 10 && plan.etag@[0] == '"' && plan.etag@[9] == '"',
        crate::digest::hex_bytes(plan.etag@.subrange(1, 9)) == plan.info@.hash.take(4),
        plan.content_disposition@ == "inline"@ || plan.content_disposition@ == "inline; filename="@ + seq!['"']
            + request.file_name@ + seq!['"'],
        header_text("inline; filename="@ + seq!['"'] + request.file_name@ + seq!['"'])
            ==> plan.content_disposition@ != "inline"@,
        plan.range matches Some(range) ==> range.0 <= range.1 && (range.1 < plan.info@.size || plan.info@.size
            == 0),
        request.range is None ==> plan.range is None,
{
    crate::cache_file::parsed_file_is_valid(request.file_id@);
    reveal_strlit("\"");
    let hash = plan.info@.hash;
    let hex = crate::digest::hex_seq(hash.take(4));
    crate::digest::hex_round_trip(hash.take(4));
    assert(plan.etag@ == etag_of(hash));
    assert(plan.etag@.subrange(1, 9) =~= hex);
    reveal_strlit("inline; filename=\"");
    reveal_strlit("inline; filename=");
    reveal_strlit("inline");
    assert("inline; filename=\""@ =~= "inline; filename="@ + seq!['"']);
    assert("inline; filename=\""@ + request.file_name@ + "\""@ =~= "inline; filename="@ + seq!['"']
        + request.file_name@ + seq!['"']);
}

/// A range is served only where one was asked for alone, and only to a browser that has no other version
/// of the file; where it is, it is that one.
pub proof fn one_range_is_served(
    ranges: Option<Vec<(u64, u64)>>,
    if_range: Option<String>,
    tag: &str,
    r: Option<(u64, u64)>,
)
    requires
        call_ensures(choose_range, (&ranges, &if_range, tag), r),
    ensures
        r is Some <==> (ranges matches Some(list) && list@.len() == 1) && (if_range is None || (if_range matches Some(
            other,
        ) && other@ == tag@)),
        r matches Some(range) ==> (ranges matches Some(list) && list@ == seq![range]),
{
    if r is Some {
        assert(ranges->0@ =~= seq![r->0]);
    }
}

/// The server is asked for a missing file by three values with semicolons between them: its number and its
/// resolution as the request has them, and its identifier.
pub proof fn source_is_asked_by_file(
    request: &HathRequest,
    pieces: Seq<Seq<char>>,
    i: int,
    j: int,
    index: Seq<char>,
    xres: Seq<char>,
    r: String,
)
    requires
        call_ensures(source_argument, (request,), r),
        request.additional@ == crate::text::join_seq(pieces, seq![';']),
        forall|k: int| 0 <= k < pieces.len() ==> !(#[trigger] pieces[k]).contains(';'),
        0 <= i < pieces.len(),
        0 <= j < pieces.len(),
        pieces[i] == "fileindex"@ + seq!['='] + index,
        pieces[j] == "xres"@ + seq!['='] + xres,
        !index.contains('=') && !xres.contains('='),
        forall|k: int| i < k < pieces.len() ==> !"fileindex"@.push('=').is_prefix_of(#[trigger] pieces[k]),
        forall|k: int| j < k < pieces.len() ==> !"xres"@.push('=').is_prefix_of(#[trigger] pieces[k]),
    ensures
        r@ == crate::text::join_seq(seq![index, xres, request.file_id@], seq![';']),
{
    reveal_strlit("fileindex");
    reveal_strlit("xres");
    reveal_strlit(";");
    assert(!"fileindex"@.contains('=') && !"xres"@.contains('='));
    crate::text::split_of_join(pieces, ';');
    crate::route::last_pair_gives_value(pieces, i, "fileindex"@, index);
    crate::route::last_pair_gives_value(pieces, j, "xres"@, xres);
    let parts = seq![index, xres, request.file_id@];
    reveal_with_fuel(crate::text::join_seq, 4);
    assert(parts.drop_last() =~= seq![index, xres]);
    assert(parts.drop_last().drop_last() =~= seq![index]);
    assert(r@ =~= crate::text::join_seq(parts, seq![';']));
}

/// One request fetches a missing file and the others wait for it: as long as it is being fetched nobody
/// else begins, and when it has ended the next one does. Other files are fetched at the same time.
pub proof fn one_request_fetches(
    a: &mut DownloadState,
    b: &mut DownloadState,
    c: &mut DownloadState,
    d: &mut DownloadState,
    hash: &[u8; 20],
    other: &[u8; 20],
    first: bool,
    second: bool,
    third: bool,
)
    requires
        old(a).wf(),
        call_ensures(DownloadState::begin, (a, hash), first),
        *old(b) == *final(a),
        call_ensures(DownloadState::begin, (b, other), second),
        *old(c) == *final(b),
        call_ensures(DownloadState::end, (c, hash), ()),
        *old(d) == *final(c),
        call_ensures(DownloadState::begin, (d, hash), third),
    ensures
        other@ == hash@ ==> !second,
        other@ != hash@ ==> second == !old(a)@.contains(other@),
        third,
        first == !old(a)@.contains(hash@),
{
}

/// A download is tried three times, and no more.
pub proof fn download_is_tried_three_times(
    info: &CacheFileInfo,
    start: Download,
    a: &mut Download,
    b: &mut Download,
    c: &mut Download,
    has_proxy: bool,
    x: TryFailure,
    y: TryFailure,
    z: TryFailure,
    again: (bool, bool, bool, bool),
)
    requires
        call_ensures(Download::new, (info, has_proxy), start),
        *old(a) == start,
        call_ensures(Download::may_try, (&start,), again.0),
        call_ensures(Download::fail, (a, x), ()),
        call_ensures(Download::may_try, (final(a),), again.1),
        *old(b) == *final(a),
        call_ensures(Download::fail, (b, y), ()),
        call_ensures(Download::may_try, (final(b),), again.2),
        *old(c) == *final(b),
        call_ensures(Download::fail, (c, z), ()),
        call_ensures(Download::may_try, (final(c),), again.3),
    ensures
        again == (true, true, true, false),
{
}

/// Each try asks the next source, and after the last one the first again; what was written is kept, and
/// the new try begins to count its bytes anew.
pub proof fn sources_take_turns(
    a: &mut Download,
    b: &mut Download,
    c: &mut Download,
    failure: TryFailure,
    sources: usize,
    x: usize,
    y: usize,
)
    requires
        sources > 0,
        old(a)@.wf(),
        call_ensures(Download::start_try, (a, sources), x),
        *old(b) == *final(a),
        call_ensures(Download::fail, (b, failure), ()),
        *old(c) == *final(b),
        call_ensures(Download::start_try, (c, sources), y),
    ensures
        x < sources && y < sources,
        y == if x + 1 == sources {
            0
        } else {
            x + 1
        },
        old(a)@.source == 0 ==> x == 0,
        final(c)@.written == old(a)@.written,
        final(c)@.download == 0,
{
    lemma_next_turn(old(a)@.source as int, sources as int);
}

proof fn lemma_next_turn(s: int, n: int)
    requires
        0 <= s,
        0 < n,
    ensures
        0 <= s % n < n,
        (s + 1) % n == if s % n + 1 == n {
            0
        } else {
            s % n + 1
        },
        s == 0 ==> s % n == 0,
{
    vstd::arithmetic::div_mod::lemma_fundamental_div_mod(s, n);
    vstd::arithmetic::div_mod::lemma_mod_bound(s, n);
    let q = s / n;
    let m = s % n;
    assert(n * q == q * n) by (nonlinear_arith);
    if m + 1 == n {
        assert((q + 1) * n == q * n + n) by (nonlinear_arith);
        vstd::arithmetic::div_mod::lemma_fundamental_div_mod_converse(s + 1, n, q + 1, 0);
    } else {
        vstd::arithmetic::div_mod::lemma_fundamental_div_mod_converse(s + 1, n, q, m + 1);
    }
    if s == 0 {
        vstd::arithmetic::div_mod::lemma_small_mod(0, n as nat);
    }
}

/// The proxy is given up when it cannot be reached, and when a source could not be asked at the second
/// try; it is never taken up again, and a disk or a source that fails is not its fault.
pub proof fn proxy_is_given_up(d: &mut Download, failure: TryFailure)
    requires
        call_ensures(Download::fail, (d, failure), ()),
    ensures
        !old(d)@.use_proxy ==> !final(d)@.use_proxy,
        old(d)@.use_proxy ==> (final(d)@.use_proxy <==> match failure {
            TryFailure::Request { connect } => !connect && old(d)@.retry != 1,
            _ => true,
        }),
        final(d)@.written == old(d)@.written,
        final(d)@.retry == old(d)@.retry + 1,
{
}

/// Bytes that come are written from where the last try has stopped: nothing is written twice and nothing
/// is left out.
pub proof fn bytes_are_written_once(d: &mut Download, bytes: &[u8], file: Seq<u8>)
    requires
        old(d)@.wf(),
        call_ensures(Download::written, (d, bytes), ()),
        old(d)@.written.is_prefix_of(file),
        old(d)@.download + bytes@.len() <= file.len(),
        bytes@ == file.subrange(old(d)@.download as int, (old(d)@.download + bytes@.len()) as int),
    ensures
        final(d)@.written.is_prefix_of(file),
        final(d)@.written.len() == if old(d)@.download + bytes@.len() > old(d)@.written.len() {
            old(d)@.download + bytes@.len()
        } else {
            old(d)@.written.len()
        },
        final(d)@.download == old(d)@.download + bytes@.len(),
{
    resumed_download_has_no_gap(old(d)@, bytes@, file);
}

/// A file goes into the cache only complete and with the right digest: a source that has sent too little or
/// too much has failed, and another digest than the name's is refused.
pub proof fn only_right_file_is_kept(d: &mut Download, info: &CacheFileInfo, complete: bool, kept: bool)
    requires
        old(d).inv(),
        call_ensures(Download::end_of_stream, (d,), complete),
        call_ensures(Download::finish, (*final(d), info), kept),
    ensures
        complete <==> old(d)@.written.len() == old(d)@.file_size,
        !complete ==> final(d)@.retry == old(d)@.retry + 1,
        kept <==> crate::digest::sha1_digest(old(d)@.written) == info@.hash,
{
}

/// A file that is sent while it is being fetched is read as far as it was written, is waited for where it
/// was not, and has been sent exactly when all its bytes were read.
pub proof fn proxied_file_is_sent_whole(s: &mut ProxyStream, n: usize, r: ProxyStep)
    requires
        call_ensures(ProxyStream::read, (s, n), r),
        old(s).offsets().0 + n <= u64::MAX,
        n > 0,
    ensures
        final(s).offsets().0 == old(s).offsets().0 + n,
        r == ProxyStep::End <==> old(s).offsets().0 + n == old(s).offsets().2,
        r == ProxyStep::Read ==> old(s).offsets().0 + n < old(s).offsets().1,
        r == ProxyStep::Wait ==> old(s).offsets().0 + n >= old(s).offsets().1,
{
}

/// A file that is sent while it is being fetched is read from its beginning, as soon as something of it
/// was written.
pub proof fn proxied_file_waits_for_bytes(
    size: u64,
    start: ProxyStream,
    s: &mut ProxyStream,
    written: u64,
    r: (ProxyStep, ProxyStep),
)
    requires
        call_ensures(ProxyStream::new, (size, 0), start),
        call_ensures(ProxyStream::step, (&start,), r.0),
        *old(s) == start,
        call_ensures(ProxyStream::progress, (s, written), ()),
        call_ensures(ProxyStream::step, (final(s),), r.1),
    ensures
        r.0 == ProxyStep::Wait,
        r.1 == if written > 0 {
            ProxyStep::Read
        } else {
            ProxyStep::Wait
        },
{
}

/// An error that has a URL gets no other one; one that has none gets that of the source, where it has a host.
pub proof fn error_tells_its_source(has_url: bool, url: &str, r: Option<String>)
    requires
        call_ensures(err_with_url, (has_url, url), r),
    ensures
        has_url ==> r is None,
        crate::url::url_host(url@) is None ==> r is None,
        !has_url && crate::url::url_host(url@) is Some ==> (r matches Some(text) && crate::url::url_parsed(url@)
            == Some(text@)),
{
}

/// A read that fails ends the answer where all has been sent, is tried again where more has been written, and
/// waits otherwise.
pub proof fn failed_read_is_tried_again(
    size: u64,
    start: ProxyStream,
    s: &mut ProxyStream,
    written: u64,
    r: (ProxyStep, ProxyStep),
)
    requires
        size > 0,
        call_ensures(ProxyStream::new, (size, 0), start),
        call_ensures(ProxyStream::read_failed, (&start,), r.0),
        *old(s) == start,
        call_ensures(ProxyStream::progress, (s, written), ()),
        call_ensures(ProxyStream::read_failed, (final(s),), r.1),
    ensures
        r.0 == ProxyStep::Wait,
        r.1 == if written > 0 {
            ProxyStep::Read
        } else {
            ProxyStep::Wait
        },
{
}

/// The first try asks the first source, with nothing written yet; a proxy is used if there is one.
pub proof fn first_source_is_asked_first(
    info: &CacheFileInfo,
    has_proxy: bool,
    start: Download,
    d: &mut Download,
    sources: usize,
    r: usize,
    proxy: bool,
    more: bool,
    done: u64,
)
    requires
        sources > 0,
        call_ensures(Download::new, (info, has_proxy), start),
        call_ensures(Download::use_proxy, (&start,), proxy),
        call_ensures(Download::may_try, (&start,), more),
        call_ensures(Download::progress, (&start,), done),
        *old(d) == start,
        call_ensures(Download::start_try, (d, sources), r),
    ensures
        r == 0,
        proxy == has_proxy && more && done == 0,
        start@.file_size == info@.size,
{
    lemma_next_turn(0, sources as int);
}

} // verus!
