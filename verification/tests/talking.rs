use hath::error::Error;
use hath::gallery_downloader::GalleryDownloader;
use hath::params::Params;
use hath::rpc::{
    is_server_fault, parse_response, ActionState, ActionStep, RPCClient, RequestOutcome, Settings, StartVerdict,
    API_VERSION, DEFAULT_SERVER, FIRST_SECOND, LAST_SECOND,
};
use hath::rpc_http_client::{
    build_request, check_status, server_name, server_of, still_works, user_agent, Preconnect, RPCHttpClient,
};

const KEY: &str = "secretkey0123456789a";
const BASE: &str = "http://rpc.hentaiathome.net/15/rpc?clientbuild=154";

fn client() -> RPCClient {
    RPCClient::new(42, KEY)
}

fn values(pairs: &[(&str, &str)]) -> Params {
    let mut params = Params::new();
    for (name, value) in pairs {
        params.insert(name.to_string(), value.to_string());
    }
    params
}

fn with_servers(list: &[&str]) -> RPCClient {
    let mut c = client();
    let servers = list.iter().map(|s| s.to_string()).collect();
    assert!(c.update_settings(&values(&[("rpc_server_ip", "x")]), servers));
    assert!(c.switch_server(None));
    c
}

#[test]
fn first_line_is_the_status() {
    let res = parse_response("OK\r\na=1\nb=2=3\nc\na=4\n");
    assert_eq!(res.status, "OK");
    assert_eq!(res.data, vec!["a=1", "b=2=3", "c", "a=4"]);
    assert!(res.is_ok());
    let map = res.to_map();
    assert_eq!(map.get("a"), Some("4"));
    assert_eq!(map.get("b"), None);
    assert_eq!(map.get("c"), None);
    let empty = parse_response("");
    assert_eq!(empty.status, "NO_RESPONSE");
    assert!(empty.data.is_empty());
    assert!(parse_response("KEY_EXPIRED").is_key_expired());
    assert_eq!(parse_response("OK\nx").data_if_ok(), Some(vec!["x".to_string()]));
    assert_eq!(parse_response("FAIL\nx").data_if_ok(), None);
}

#[test]
fn limit_follows_the_server() {
    let mut settings = Settings::new();
    assert_eq!(settings.size_limit(), u64::MAX);
    settings.update(&values(&[("disklimit_bytes", "12345")]));
    assert_eq!(settings.size_limit(), 12345);
    settings.update(&values(&[("disklimit_bytes", "much")]));
    assert_eq!(settings.size_limit(), 12345);
    settings.update(&values(&[]));
    assert_eq!(settings.size_limit(), 12345);
}

#[test]
fn login_needs_port_host_and_ranges() {
    let ok = parse_response("OK\nport=1234\nhost=1.2.3.4\nverify_cache=true\nstatic_ranges=0001;a999\n");
    let settings = RPCClient::login(&Some((100, API_VERSION)), Some(&ok)).unwrap();
    assert_eq!(settings.client_port(), 1234);
    assert_eq!(settings.client_host(), "1.2.3.4");
    assert!(settings.verify_cache());
    assert_eq!(settings.static_range(), vec!["0001", "a999"]);
    let plain = parse_response("OK\nport=1\nhost=h\nstatic_ranges=\nverify_cache=yes");
    let settings = RPCClient::login(&None, Some(&plain)).unwrap();
    assert!(!settings.verify_cache());
    assert_eq!(settings.static_range(), vec![""]);
    for (body, name) in [
        ("OK\nhost=h\nstatic_ranges=1", "port"),
        ("OK\nport=65536\nhost=h\nstatic_ranges=1", "port"),
        ("OK\nport=1\nstatic_ranges=1", "host"),
        ("OK\nport=1\nhost=h", "static_ranges"),
    ] {
        match RPCClient::login(&None, Some(&parse_response(body))) {
            Err(Error::InitSettingsMissing(n)) => assert_eq!(n, name),
            _ => panic!("{body}"),
        }
    }
}

#[test]
fn login_can_be_refused() {
    let ok = parse_response("OK\nport=1234\nhost=h\nstatic_ranges=0001");
    assert!(matches!(RPCClient::login(&Some((API_VERSION + 1, API_VERSION + 1)), Some(&ok)), Err(Error::VersionTooOld)));
    match RPCClient::login(&None, None) {
        Err(Error::ApiResponseFail { fail_code, message }) => {
            assert_eq!(fail_code, "CONNECTION_FAILED");
            assert_eq!(message, "Failed to get a login response from server.");
        }
        _ => panic!(),
    }
    match RPCClient::login(&None, Some(&parse_response("FAIL\na\nb"))) {
        Err(Error::ApiResponseFail { fail_code, message }) => {
            assert_eq!(fail_code, "FAIL");
            assert_eq!(message, "a\nb");
        }
        _ => panic!(),
    }
    assert!(RPCClient::version_accepted(&Some((API_VERSION, 0))));
    assert!(RPCClient::update_available(&Some((API_VERSION, API_VERSION + 1))));
    assert!(!RPCClient::update_available(&Some((API_VERSION, API_VERSION))));
    assert!(!RPCClient::update_available(&None));
}

#[test]
fn requests_are_signed() {
    let c = client();
    let pairs = c.action_query(1700000000, "still_alive", "");
    let expected = [
        ("act", "still_alive"),
        ("add", ""),
        ("cid", "42"),
        ("acttime", "1700000000"),
        ("actkey", "6cf5cf1743abc4eabdf778998adb6c0f17415af1"),
    ];
    for (pair, (name, value)) in pairs.iter().zip(expected) {
        assert_eq!((pair.0.as_str(), pair.1.as_str()), (name, value));
    }
    assert_eq!(pairs.len(), 5);
    assert_eq!(c.id(), 42);
    assert_eq!(c.key(), KEY);
}

#[test]
fn addresses_of_requests() {
    let c = client();
    assert_eq!(
        c.build_url(1700000000, "still_alive", "", None).unwrap(),
        format!("{BASE}&act=still_alive&add=&cid=42&acttime=1700000000&actkey=6cf5cf1743abc4eabdf778998adb6c0f17415af1")
    );
    let url = c.build_url(1700000000, "fetchqueue", "1;org x", Some("dl")).unwrap();
    assert!(url.starts_with("http://rpc.hentaiathome.net/15/dl?clientbuild=154&act=fetchqueue&add=1%3Borg+x&cid=42&"));
    assert_eq!(c.stat_url().unwrap(), format!("{BASE}&act=server_stat"));
    assert_eq!(BASE, format!("http://{DEFAULT_SERVER}/15/rpc?clientbuild={API_VERSION}"));
}

#[test]
fn clock_is_set_by_the_server() {
    let mut c = client();
    let body = "OK\nserver_time=1700000000\nmin_client_build=140\ncur_client_build=155";
    assert_eq!(c.check_stat(Some(body), 0, 1700000003, 0).unwrap(), Some((140, 155)));
    assert_eq!(c.get_timestemp(1700000003), 1700000006);
    // Half a second is rounded away from zero.
    c.check_stat(Some(body), 0, 1700000000, 500_000_000).unwrap();
    assert_eq!(c.get_timestemp(10), 11);
    c.check_stat(Some(body), 0, 1700000000, 499_999_999).unwrap();
    assert_eq!(c.get_timestemp(10), 10);
    c.check_stat(Some(body), 0, 1699999999, 500_000_000).unwrap();
    assert_eq!(c.get_timestemp(10), 9);
    // A quarter of the time of the request has passed.
    c.check_stat(Some(body), 8_000_000_000, 1700000002, 0).unwrap();
    assert_eq!(c.get_timestemp(10), 10);
    assert_eq!(c.check_stat(Some("OK\nserver_time=x\nmin_client_build=1"), 0, 5, 0).unwrap(), None);
    assert_eq!(c.get_timestemp(10), 10);
}

#[test]
fn clock_stays_within_what_can_be_told() {
    let mut c = client();
    let body = format!("OK\nserver_time={LAST_SECOND}");
    c.check_stat(Some(&body), 0, 0, 0).unwrap();
    assert_eq!(c.get_timestemp(FIRST_SECOND), FIRST_SECOND);
    assert_eq!(c.get_timestemp(100), 100 - LAST_SECOND);
    let before = c.get_timestemp(100);
    let body = format!("OK\nserver_time={}", LAST_SECOND + 1);
    c.check_stat(Some(&body), 0, 0, 0).unwrap();
    assert_eq!(c.get_timestemp(100), before);
    let body = format!("OK\nserver_time={LAST_SECOND}");
    c.check_stat(Some(&body), 4_000_000_000, 50, 0).unwrap();
    assert_eq!(c.get_timestemp(100), before);
    let body = format!("OK\nserver_time={}", FIRST_SECOND - 1);
    c.check_stat(Some(&body), 0, 50, 0).unwrap();
    assert_eq!(c.get_timestemp(100), before);
}

#[test]
fn state_of_the_server_can_fail() {
    let mut c = client();
    match c.check_stat(None, 0, 0, 0) {
        Err(Error::ApiResponseFail { fail_code, message }) => {
            assert_eq!(fail_code, "CONNECTION_FAILED");
            assert_eq!(message, "Failed to get initial stat from server.");
        }
        _ => panic!(),
    }
    match c.check_stat(Some("DOWN\nlater"), 0, 0, 0) {
        Err(Error::ApiResponseFail { fail_code, message }) => {
            assert_eq!(fail_code, "DOWN");
            assert_eq!(message, "later");
        }
        _ => panic!(),
    }
}

#[test]
fn servers_are_changed() {
    let mut c = with_servers(&["1.1.1.1"]);
    assert!(c.is_vaild_rpc_server("1.1.1.1"));
    assert!(!c.is_vaild_rpc_server("1.1.1.2"));
    assert_eq!(c.other_servers(), None);
    assert!(c.change_server());
    assert!(c.stat_url().unwrap().starts_with("http://rpc.hentaiathome.net/"));

    let mut c = with_servers(&["1.1.1.1", "2.2.2.2", "3.3.3.3"]);
    assert_eq!(c.other_servers().unwrap(), vec!["1.1.1.1", "2.2.2.2", "3.3.3.3"]);
    assert!(c.switch_server(Some("1.1.1.1")));
    assert_eq!(c.stat_url().unwrap(), "http://1.1.1.1/15/rpc?clientbuild=154&act=server_stat");
    assert_eq!(c.other_servers().unwrap(), vec!["3.3.3.3", "2.2.2.2"]);
    for _ in 0..20 {
        let before = c.stat_url().unwrap();
        assert!(c.change_server());
        let after = c.stat_url().unwrap();
        assert_ne!(before, after);
        assert!(["http://1.1.1.1/", "http://2.2.2.2/", "http://3.3.3.3/"].iter().any(|s| after.starts_with(s)));
    }
    assert!(!c.switch_server(Some("")));
    assert!(c.switch_server(None));
    assert!(c.stat_url().unwrap().starts_with("http://rpc.hentaiathome.net/"));
}

#[test]
fn settings_bring_servers() {
    let list = values(&[("rpc_server_ip", "1.1.1.1;::ffff:2.2.2.2"), ("disklimit_bytes", "9")]);
    assert_eq!(RPCClient::server_addresses(&list).unwrap(), vec!["1.1.1.1", "::ffff:2.2.2.2"]);
    assert_eq!(RPCClient::server_addresses(&values(&[])), None);
    let mut c = client();
    assert!(c.update_settings(&list, vec!["1.1.1.1".to_string(), "2.2.2.2".to_string()]));
    let url = c.stat_url().unwrap();
    assert!(url.starts_with("http://1.1.1.1/") || url.starts_with("http://2.2.2.2/"));
    assert!(c.is_vaild_rpc_server("2.2.2.2"));
    assert_eq!(c.settings().size_limit(), 9);
    assert!(c.update_settings(&values(&[("disklimit_bytes", "8")]), vec!["9.9.9.9".to_string()]));
    assert_eq!(c.stat_url().unwrap(), url);
    assert_eq!(c.settings().size_limit(), 8);
    // A list that cannot be used leaves the address as it was.
    assert!(!c.update_settings(&list, vec!["".to_string(), "".to_string()]));
    assert_eq!(c.stat_url().unwrap(), url);
    assert!(c.update_settings(&list, vec!["2.2.2.2".to_string()]));
    assert_eq!(c.stat_url().unwrap(), url);
    assert!(c.is_vaild_rpc_server("2.2.2.2"));
    assert!(!c.is_vaild_rpc_server("1.1.1.1"));
    assert!(RPCClient::refresh_settings(None).is_none());
    assert!(RPCClient::refresh_settings(Some(&parse_response("FAIL\na=1"))).is_none());
    assert_eq!(RPCClient::refresh_settings(Some(&parse_response("OK\na=1"))).unwrap().get("a"), Some("1"));
}

#[test]
fn start_is_answered() {
    let ok = parse_response("OK\nport=4321\nhost=9.9.9.9\nstatic_ranges=0001");
    let init = RPCClient::login(&None, Some(&ok)).unwrap();
    let mut c = client();
    assert!(matches!(c.connect_check(None, &init), StartVerdict::NoReply));
    match c.connect_check(Some(&parse_response("FAIL_CONNECT_TEST")), &init) {
        StartVerdict::Refused { advice: Some(text) } => {
            assert!(text.contains("please check that port 4321 is forwarded"));
            assert!(text.contains("check that 9.9.9.9 is your actual"));
            assert!(text.starts_with("\n\n***"));
            assert!(text.ends_with("***\n\n"));
        }
        _ => panic!(),
    }
    match c.connect_check(Some(&parse_response("FAIL_CID_IN_USE")), &init) {
        StartVerdict::Refused { advice: Some(text) } => assert!(text.contains("already using this client ident")),
        _ => panic!(),
    }
    match c.connect_check(Some(&parse_response("FAIL_OTHER_CLIENT_CONNECTED")), &init) {
        StartVerdict::Refused { advice: Some(text) } => assert!(text.contains("already connected from this computer")),
        _ => panic!(),
    }
    assert!(matches!(c.connect_check(Some(&parse_response("OTHER")), &init), StartVerdict::Refused { advice: None }));
    assert!(!c.is_running());
    assert!(!c.shutdown());
    assert!(matches!(c.connect_check(Some(&parse_response("OK")), &init), StartVerdict::Started));
    assert!(c.is_running());
    assert!(c.shutdown());
    assert!(!c.is_running());
}

#[test]
fn three_failures_end_a_request() {
    let mut state = ActionState::new();
    for _ in 0..5 {
        assert!(matches!(state.step(RequestOutcome::Body("KEY_EXPIRED".to_string())), ActionStep::SyncClock));
    }
    assert!(matches!(state.step(RequestOutcome::Failed { server_fault: true }), ActionStep::Retry { change_server: true }));
    assert!(matches!(state.step(RequestOutcome::Failed { server_fault: false }), ActionStep::Retry { change_server: false }));
    assert!(matches!(state.step(RequestOutcome::Failed { server_fault: true }), ActionStep::GiveUp { change_server: true }));
    let mut state = ActionState::new();
    match state.step(RequestOutcome::Body("OK\nx".to_string())) {
        ActionStep::Done(res) => assert_eq!(res.data, vec!["x"]),
        _ => panic!(),
    }
}

#[test]
fn servers_are_blamed_for_their_faults() {
    assert!(is_server_fault(true, false, None));
    assert!(is_server_fault(false, true, None));
    assert!(is_server_fault(false, false, Some(500)));
    assert!(is_server_fault(false, false, Some(599)));
    assert!(!is_server_fault(false, false, Some(499)));
    assert!(!is_server_fault(false, false, Some(600)));
    assert!(!is_server_fault(false, false, None));
}

#[test]
fn arguments_of_requests() {
    assert_eq!(RPCClient::sr_fetch("1", "640", "id"), "1;640;id");
    assert_eq!(RPCClient::get_purgelist(43200), "43200");
    assert_eq!(RPCClient::dl_fetch(-7, 1, 2, "org", true), "-7;1;2;org;1");
    assert_eq!(RPCClient::dl_fetch(7, 1, 2, "org", false), "7;1;2;org;0");
    assert_eq!(RPCClient::still_alive(true), "resume");
    assert_eq!(RPCClient::still_alive(false), "");
    assert_eq!(RPCClient::queue_argument(None), "");
    let meta = GalleryDownloader::parser(&vec!["GID 12".to_string(), "MINXRES org".to_string()]).unwrap();
    assert_eq!(RPCClient::queue_argument(Some(&meta)), "12;org");
    let failures: Vec<String> = (0..50).map(|i| i.to_string()).collect();
    assert!(RPCClient::dl_fails(&failures).unwrap().starts_with("0;1;2;"));
    assert_eq!(RPCClient::dl_fails(&vec![]), None);
    let many: Vec<String> = (0..51).map(|i| i.to_string()).collect();
    assert_eq!(RPCClient::dl_fails(&many), None);
}

#[test]
fn queue_may_be_empty() {
    assert_eq!(RPCClient::fetch_queue("NO_PENDING_DOWNLOADS"), None);
    assert_eq!(RPCClient::fetch_queue("INVALID_REQUEST\nx"), None);
    assert_eq!(RPCClient::fetch_queue("GID 1\nx").unwrap(), vec!["GID 1", "x"]);
}

#[test]
fn urls_lead_to_servers() {
    assert_eq!(server_of("http://example.org/x").unwrap(), "example.org:80");
    assert_eq!(server_of("https://example.org/x").unwrap(), "example.org:443");
    assert_eq!(server_of("https://example.org:8443/x").unwrap(), "example.org:8443");
    assert_eq!(server_of("mailto:a@b"), None);
    assert_eq!(server_of("nonsense"), None);
    assert_eq!(server_name("h", None, &None), "h:80");
    let headers = build_request("http://example.org/x").unwrap();
    assert_eq!(headers[0], ("Host".to_string(), "example.org".to_string()));
    assert_eq!(headers[1], ("User-Agent".to_string(), "Hentai@Home 1.6.4".to_string()));
    assert_eq!(build_request("nonsense"), None);
    assert_eq!(user_agent(), "Hentai@Home 1.6.4");
}

#[test]
fn connections_are_opened_ahead() {
    let mut client = RPCHttpClient::new();
    assert_eq!(client.preconnect(false), Preconnect::Open);
    assert_eq!(client.preconnect(true), Preconnect::Connecting);
    assert!(!client.get("a:80"));
    client.connected("a:80");
    assert_eq!(client.preconnect(true), Preconnect::Connected);
    assert!(client.get("a:80"));
    assert!(!client.get("a:80"));
    client.connected("a:80");
    assert!(!client.get("b:80"));
    assert_eq!(client.preconnect(false), Preconnect::Open);
    assert!(still_works(true, false));
    assert!(still_works(false, true));
    assert!(!still_works(false, false));
}

#[test]
fn statuses_blame_someone() {
    assert!(check_status(200, None).is_ok());
    assert!(check_status(399, None).is_ok());
    assert!(check_status(600, None).is_ok());
    match check_status(404, Some("no".to_string())) {
        Err(Error::ServerError { status, body }) => assert_eq!((status, body.as_deref()), (404, Some("no"))),
        _ => panic!(),
    }
    assert!(check_status(599, None).is_err());
}

#[test]
fn addresses_do_not_grow_beyond_all_bounds() {
    let mut c = client();
    let base = c.stat_url().unwrap();
    let limit = hath::url::URL_LIMIT as usize - BASE.len();
    let long = "a".repeat(limit + 1);
    assert_eq!(c.build_url(1_700_000_000, "act", "", Some(&long)), None);
    assert!(c.build_url(1_700_000_000, "act", "", Some("end")).unwrap().contains("/15/end?"));
    assert!(!c.switch_server(Some(&long)));
    assert_eq!(c.stat_url().unwrap(), base);
}
