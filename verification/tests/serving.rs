use hath::cache_file::CacheFileInfo;
use hath::middleware::connection_counter::ConnectionCounter;
use hath::middleware::logger::{access_line, body_size, request_line};
use hath::middleware::{default_headers, remove_header};
use hath::route::cache::{
    choose_range, err_with_url, hath as answer, source_argument, CacheFileResult, Download, DownloadState, HathPlan, HathRequest, ProxyStep,
    ProxyStream, ServePlan, TryFailure,
};
use hath::route::speed_test::{speedtest, RandomResponse};
use hath::route::{favicon, forbidden, metrics, not_found, parse_additional, robots, ResponseHead};

const KEY: &str = "secretkey0123456789a";
const ID: &str = "a9993e364706816aba3e25717850c26c9cd0d89d-3-640-480-jpg";
const SIGN: &str = "2a48c328bdea51da5330b7e9b1b4467f693d0a6c";
const NOW: i64 = 1_700_000_000;
const TAG: &str = "\"a9993e36\"";

fn request(additional: &str) -> HathRequest {
    HathRequest {
        file_id: ID.to_string(),
        additional: additional.to_string(),
        file_name: "page 1.jpg".to_string(),
        if_none_match: None,
        range: None,
        if_range: None,
    }
}

fn good() -> HathRequest {
    request(&format!("keystamp=1700000000-{};fileindex=12;xres=org", &SIGN[..10]))
}

fn plan(request: &HathRequest) -> ServePlan {
    match answer(request, NOW, KEY) {
        HathPlan::Serve(plan) => plan,
        _ => panic!(),
    }
}

fn header<'a>(head: &'a ResponseHead, name: &str) -> Option<&'a str> {
    head.headers.iter().find(|(n, _)| n == name).map(|(_, v)| v.as_str())
}

#[test]
fn keys_open_files() {
    assert!(matches!(answer(&good(), NOW, KEY), HathPlan::Serve(_)));
    assert!(matches!(answer(&good(), NOW + 900, KEY), HathPlan::Serve(_)));
    assert!(matches!(answer(&good(), NOW - 900, KEY), HathPlan::Serve(_)));
    assert!(matches!(answer(&good(), NOW + 901, KEY), HathPlan::Forbidden));
    assert!(matches!(answer(&good(), NOW - 901, KEY), HathPlan::Forbidden));
    assert!(matches!(answer(&good(), NOW, "other"), HathPlan::Forbidden));
    for additional in [
        "".to_string(),
        "keystamp=1700000000".to_string(),
        "keystamp=1700000000-".to_string(),
        format!("keystamp=-{SIGN}"),
        format!("keystamp=1700000001-{SIGN}"),
        format!("keystamp=1700000000-{SIGN}0"),
        "keystamp=1700000000-ff".to_string(),
        format!("keystamp=-9223372036854775808-{SIGN}"),
    ] {
        assert!(matches!(answer(&request(&additional), NOW, KEY), HathPlan::Forbidden), "{additional}");
    }
    // A time that is not a number counts as the epoch.
    let epoch = request("keystamp=abc-9ca365f3");
    assert!(matches!(answer(&epoch, 0, KEY), HathPlan::Serve(_)));
    assert!(matches!(answer(&epoch, 901, KEY), HathPlan::Forbidden));
}

#[test]
fn unknown_files_are_not_found() {
    let mut req = good();
    req.file_id = "nothing".to_string();
    assert!(matches!(answer(&req, NOW, KEY), HathPlan::Forbidden));
    let hash = hath::util::string_to_hash(format!("1700000000-nothing-{KEY}-hotlinkthis"));
    req.additional = format!("keystamp=1700000000-{hash}");
    assert!(matches!(answer(&req, NOW, KEY), HathPlan::NotFound));
}

#[test]
fn browsers_keep_files() {
    let mut req = good();
    req.if_none_match = Some(TAG.to_string());
    match answer(&req, NOW, KEY) {
        HathPlan::NotModified(head) => {
            assert_eq!(head.status, 304);
            assert_eq!(header(&head, "etag"), Some(TAG));
            assert_eq!(header(&head, "content-length"), Some("3"));
            assert_eq!(header(&head, "cache-control"), Some("public, max-age=31536000"));
            assert_eq!(head.headers.len(), 3);
        }
        _ => panic!(),
    }
    req.if_none_match = Some("\"00000000\"".to_string());
    assert!(matches!(answer(&req, NOW, KEY), HathPlan::Serve(_)));
}

#[test]
fn files_are_described() {
    let p = plan(&good());
    assert_eq!(p.content_type, "image/jpeg");
    assert_eq!(p.content_disposition, "inline; filename=\"page 1.jpg\"");
    assert_eq!(p.etag, TAG);
    assert_eq!(p.range, None);
    let mut req = good();
    req.file_name = "a\nb".to_string();
    assert_eq!(plan(&req).content_disposition, "inline");
    req.file_name = "\u{7f}".to_string();
    assert_eq!(plan(&req).content_disposition, "inline");
    req.file_name = "\u{9875}\t1".to_string();
    assert_eq!(plan(&req).content_disposition, "inline; filename=\"\u{9875}\t1\"");
}

#[test]
fn one_range_is_served() {
    let mut req = good();
    req.range = Some("bytes=1-".to_string());
    assert_eq!(plan(&req).range, Some((1, 2)));
    req.range = Some("bytes=0-100".to_string());
    assert_eq!(plan(&req).range, Some((0, 2)));
    req.range = Some("bytes=-1".to_string());
    assert_eq!(plan(&req).range, Some((2, 2)));
    for bad in ["bytes=0-0,2-2", "bytes=3-", "bytes=2-1", "items=0-1", "", "bytes=-4"] {
        req.range = Some(bad.to_string());
        assert_eq!(plan(&req).range, None, "{bad}");
    }
    req.range = Some("bytes=1-1".to_string());
    req.if_range = Some("\"other\"".to_string());
    assert_eq!(plan(&req).range, None);
    req.if_range = Some(TAG.to_string());
    assert_eq!(plan(&req).range, Some((1, 1)));
}

#[test]
fn ranges_are_chosen() {
    assert_eq!(choose_range(&None, &None, TAG), None);
    assert_eq!(choose_range(&Some(vec![]), &None, TAG), None);
    assert_eq!(choose_range(&Some(vec![(1, 2)]), &None, TAG), Some((1, 2)));
    assert_eq!(choose_range(&Some(vec![(1, 2), (4, 5)]), &None, TAG), None);
    assert_eq!(choose_range(&Some(vec![(1, 2)]), &Some("x".to_string()), TAG), None);
    assert_eq!(choose_range(&Some(vec![(1, 2)]), &Some(TAG.to_string()), TAG), Some((1, 2)));
}

#[test]
fn cached_files_are_answered() {
    let mut req = good();
    let p = plan(&req);
    assert!(p.cached(CacheFileResult::NotFound).is_none());
    let full = p.cached(CacheFileResult::Full).unwrap();
    assert_eq!(full.head.status, 200);
    assert_eq!(full.truncate, None);
    assert_eq!(header(&full.head, "content-length"), Some("3"));
    assert_eq!(header(&full.head, "accept-ranges"), Some("bytes"));
    assert_eq!(header(&full.head, "content-type"), Some("image/jpeg"));
    assert_eq!(full.head.headers.len(), 6);

    req.range = Some("bytes=1-2".to_string());
    let p = plan(&req);
    let part = p.cached(CacheFileResult::Partial).unwrap();
    assert_eq!(part.head.status, 206);
    assert_eq!(part.truncate, Some(2));
    assert_eq!(header(&part.head, "content-length"), Some("2"));
    assert_eq!(header(&part.head, "content-range"), Some("bytes 1-2/3"));
    // A file that cannot be sought is sent as a whole.
    let whole = p.cached(CacheFileResult::Full).unwrap();
    assert_eq!((whole.head.status, whole.truncate), (200, None));

    req.range = Some("bytes=0-1".to_string());
    let start = plan(&req).cached(CacheFileResult::Full).unwrap();
    assert_eq!((start.head.status, start.truncate), (206, Some(2)));

    let proxied = plan(&req).proxied();
    assert_eq!(proxied.status, 200);
    assert_eq!(header(&proxied, "content-length"), Some("3"));
    assert_eq!(header(&proxied, "accept-ranges"), None);
}

#[test]
fn missing_files_are_asked_for() {
    assert_eq!(source_argument(&good()), format!("12;org;{ID}"));
    assert_eq!(source_argument(&request("")), format!(";;{ID}"));
}

#[test]
fn download_resumes_where_it_broke_off() {
    let info = CacheFileInfo::from_file_id(ID).unwrap();
    let mut d = Download::new(&info, false);
    assert!(d.may_try());
    assert_eq!(d.start_try(2), 0);
    assert_eq!(d.to_write(b"a"), 0);
    d.written(b"a");
    assert_eq!(d.progress(), 1);
    d.fail(TryFailure::Stream);
    assert_eq!(d.start_try(2), 1);
    assert_eq!(d.to_write(b"a"), 1);
    d.written(b"a");
    assert_eq!(d.progress(), 1);
    assert_eq!(d.to_write(b"bc"), 0);
    d.written(b"bc");
    assert_eq!(d.progress(), 3);
    assert!(d.end_of_stream());
    assert!(d.finish(&info));
}

#[test]
fn download_skips_part_of_a_piece() {
    let info = CacheFileInfo::from_file_id(ID).unwrap();
    let mut d = Download::new(&info, false);
    d.start_try(1);
    d.written(b"ab");
    assert!(!d.end_of_stream());
    assert_eq!(d.start_try(1), 0);
    assert_eq!(d.to_write(b"abc"), 2);
    d.written(b"abc");
    assert!(d.end_of_stream());
    assert!(d.finish(&info));
}

#[test]
fn wrong_download_is_not_kept() {
    let info = CacheFileInfo::from_file_id(ID).unwrap();
    let mut d = Download::new(&info, false);
    d.start_try(1);
    d.written(b"abd");
    assert!(d.end_of_stream());
    assert!(!d.finish(&info));
}

#[test]
fn download_is_tried_three_times() {
    let info = CacheFileInfo::from_file_id(ID).unwrap();
    let mut d = Download::new(&info, true);
    assert!(d.use_proxy());
    d.start_try(1);
    d.fail(TryFailure::Request { connect: false });
    assert!(d.use_proxy());
    d.fail(TryFailure::Request { connect: false });
    assert!(!d.use_proxy());
    assert!(d.may_try());
    d.fail(TryFailure::File);
    assert!(!d.may_try());
    let mut d = Download::new(&info, true);
    d.fail(TryFailure::Request { connect: true });
    assert!(!d.use_proxy());
    let mut d = Download::new(&info, true);
    d.fail(TryFailure::File);
    d.fail(TryFailure::Stream);
    assert!(d.use_proxy());
}

#[test]
fn missing_file_is_fetched_once_at_a_time() {
    let mut state = DownloadState::new();
    assert!(state.begin(&[1; 20]));
    assert!(!state.begin(&[1; 20]));
    assert!(state.begin(&[2; 20]));
    assert!(state.begin(&[3; 20]));
    state.end(&[2; 20]);
    state.end(&[9; 20]);
    assert!(!state.begin(&[3; 20]));
    assert!(state.begin(&[2; 20]));
    state.end(&[1; 20]);
    assert!(state.begin(&[1; 20]));
}

#[test]
fn proxied_file_is_sent_as_it_comes() {
    let mut s = ProxyStream::new(5, 0);
    assert_eq!(s.step(), ProxyStep::Wait);
    s.progress(3);
    assert_eq!(s.step(), ProxyStep::Read);
    assert_eq!(s.read(0), ProxyStep::Read);
    assert_eq!(s.read(2), ProxyStep::Read);
    assert_eq!(s.read_failed(), ProxyStep::Read);
    assert_eq!(s.read(1), ProxyStep::Wait);
    s.progress(5);
    assert_eq!(s.read(2), ProxyStep::End);
    assert_eq!(s.read_failed(), ProxyStep::End);
}

#[test]
fn speed_tests_are_signed() {
    let hash = "48c489a6a47a0f7d4bd8f5e6fa493117d29f4c87";
    let time = 1645930666;
    assert!(speedtest(5242880, time, hash, time, 42, KEY));
    assert!(speedtest(5242880, time, hash, time + 300, 42, KEY));
    assert!(speedtest(5242880, time, hash, time - 300, 42, KEY));
    assert!(!speedtest(5242880, time, hash, time + 301, 42, KEY));
    assert!(!speedtest(5242880, time, hash, time - 301, 42, KEY));
    assert!(!speedtest(5242881, time, hash, time, 42, KEY));
    assert!(!speedtest(5242880, time, &hash[..39], time, 42, KEY));
    assert!(!speedtest(5242880, i64::MIN, hash, i64::MAX, 42, KEY));
}

#[test]
fn speed_test_sends_its_size() {
    for size in [0u64, 1, 8191, 8192, 8193, 20000] {
        let mut test = RandomResponse::random_response(size);
        let mut pieces = Vec::new();
        while let Some(piece) = test.next_piece() {
            pieces.push(piece);
        }
        let total: usize = pieces.iter().map(|p| p.len()).sum();
        assert_eq!(total as u64, size);
        assert_eq!(pieces.len() as u64, size.div_ceil(8192));
        assert!(pieces.iter().all(|p| p.len() <= 8192));
    }
    let mut test = RandomResponse::random_response(16384);
    let first = test.next_piece().unwrap();
    assert_eq!(first, test.next_piece().unwrap());
    assert!(first.iter().any(|b| *b != first[0]));
}

#[test]
fn fixed_answers() {
    let r = hath::route::default();
    assert_eq!((r.head.status, r.body.as_str()), (404, "An error has occurred. (404)"));
    assert_eq!(header(&r.head, "content-type"), Some("text/html; charset=utf-8"));
    let r = not_found();
    assert_eq!((r.head.status, r.body.as_str()), (404, "An error has occurred. (404)"));
    assert_eq!(header(&r.head, "content-type"), Some("text/plain; charset=utf-8"));
    let r = forbidden();
    assert_eq!((r.head.status, r.body.as_str()), (403, "An error has occurred. (403)"));
    let r = favicon();
    assert_eq!((r.head.status, header(&r.head, "location")), (301, Some("https://e-hentai.org/favicon.ico")));
    let r = metrics("hath_uptime 5");
    assert_eq!((r.head.status, r.body.as_str()), (200, "hath_uptime 5"));
    assert_eq!(header(&r.head, "content-type"), Some("application/openmetrics-text; version=1.0.0; charset=utf-8"));
    let r = robots();
    assert_eq!((r.head.status, r.body.as_str()), (200, "User-agent: *\nDisallow: /"));
}

#[test]
fn additional_values_are_read() {
    let map = parse_additional("a=1;b;c=2=3;=4;a=5");
    assert_eq!(map.get("a"), Some("5"));
    assert_eq!(map.get("b"), None);
    assert_eq!(map.get("c"), Some("2"));
    assert_eq!(map.get(""), Some("4"));
}

#[test]
fn every_answer_names_the_server() {
    let mut head = ResponseHead::new(200);
    head.header("server", "other");
    head.header("etag", "x");
    head.header("connection", "keep-alive");
    let head = default_headers(head);
    assert_eq!(head.status, 200);
    assert_eq!(header(&head, "server"), Some("Genetic Lifeform and Distributed Open Server 1.6.4"));
    assert_eq!(header(&head, "connection"), Some("close"));
    assert_eq!(header(&head, "etag"), Some("x"));
    assert_eq!(head.headers.len(), 3);
    assert!(remove_header(head.headers, "etag").iter().all(|(n, _)| n != "etag"));
}

#[test]
fn too_many_requests_raise_an_alarm() {
    let mut counter = ConnectionCounter::new();
    for _ in 0..9 {
        assert!(!counter.enter(10));
    }
    assert!(counter.enter(10));
    counter.leave();
    counter.leave();
    assert!(!counter.enter(10));
    for max in 0u64..200 {
        let limit = (max as f64 * 0.8).ceil() as u64;
        let mut counter = ConnectionCounter::new();
        for before in 0..limit + 3 {
            assert_eq!(counter.enter(max), before > limit);
        }
    }
}

#[test]
fn requests_are_logged() {
    assert_eq!(request_line("GET", "/h/x", None, "HTTP/1.1"), "GET /h/x HTTP/1.1");
    assert_eq!(request_line("GET", "/h/x", Some("a=b"), "HTTP/1.1"), "GET /h/x?a=b HTTP/1.1");
    assert_eq!(body_size(false, Some("123")), 123);
    assert_eq!(body_size(true, Some("123")), 0);
    assert_eq!(body_size(false, Some("x")), 0);
    assert_eq!(body_size(false, None), 0);
    assert_eq!(
        access_line(7, "1.2.3.4", 200, 123, "GET / HTTP/1.1"),
        format!("{{{}/{:16} Code={} Byte={:<8} {}", 7, "1.2.3.4}", 200, 123, "GET / HTTP/1.1")
    );
}

#[test]
fn errors_get_the_url_of_a_host() {
    assert_eq!(err_with_url(false, "HTTP://Host.Example:80/a b"), Some("http://host.example/a%20b".to_string()));
    assert_eq!(err_with_url(true, "http://host.example/"), None);
    assert_eq!(err_with_url(false, "not a url"), None);
    assert_eq!(err_with_url(false, "mailto:someone"), None);
}
