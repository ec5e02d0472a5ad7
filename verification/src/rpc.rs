//! What this client asks of the server, and what it makes of the answers.
use vstd::prelude::*;
use vstd::string::*;

use crate::error::Error;
use crate::gallery_downloader::GalleryMeta;
use crate::params::Params;
use crate::text::{
    i64_text, join, lines, parse_i64, parse_u64, push_i64, push_u64, same_text, split,
};
use crate::url::{add_pairs, replace_last_segment, set_host, url_host_str};
use crate::util::string_to_hash;

verus! {

/// For server check capabilities.
pub const API_VERSION: i32 = 154;

/// The server that is asked as long as no other is known.
pub const DEFAULT_SERVER: &'static str = "rpc.hentaiathome.net";

/// The address that every request starts from, as long as no other server is known.
pub open spec fn default_base() -> Seq<char> {
    "http://"@ + DEFAULT_SERVER@ + "/15/rpc?clientbuild="@ + crate::text::decimal(API_VERSION as nat)
}

/// The first and the last second that `chrono` can tell.
pub const FIRST_SECOND: i64 = -8334601228800;

pub const LAST_SECOND: i64 = 8210266876799;

/// Whether `chrono` can tell a time, in seconds since the epoch.
pub open spec fn time_in_range(secs: int) -> bool {
    FIRST_SECOND <= secs <= LAST_SECOND
}

/// `timestamp_opt` of `chrono::TimeZone` for `chrono::Utc`: a time exists from the first second of
/// the year 262144 before to the last second of the year 262142 after the beginning of the count.
#[verifier::external_body]
fn timestamp_exists(secs: i64) -> (r: bool)
    ensures
        r == time_in_range(secs as int),
{
    chrono::TimeZone::timestamp_opt(&chrono::Utc, secs, 0).single().is_some()
}

/// What the server sent: a status, and a list of values.
#[verifier::ext_equal]
pub struct Reply {
    pub status: Seq<char>,
    pub data: Seq<Seq<char>>,
}

/// What the server sent: a status, and a list of values.
#[derive(Debug)]
pub struct ApiResponse {
    pub status: String,
    pub data: Vec<String>,
}

impl View for ApiResponse {
    type V = Reply;

    open spec fn view(&self) -> Reply {
        Reply { status: self.status@, data: crate::text::texts(self.data@) }
    }
}

/// The first line is the status, the others are the data. Nothing at all counts as a status too.
pub open spec fn reply_of(body: Seq<char>) -> Reply {
    let all = crate::text::lines_seq(body);
    if all.len() == 0 {
        Reply { status: "NO_RESPONSE"@, data: Seq::empty() }
    } else {
        Reply { status: all[0], data: all.drop_first() }
    }
}

/// The named values among some lines: a line with exactly one equals sign. A later line wins.
pub open spec fn named_values(data: Seq<Seq<char>>) -> Map<Seq<char>, Seq<char>>
    decreases data.len(),
{
    if data.len() == 0 {
        Map::empty()
    } else {
        let before = named_values(data.drop_last());
        let pair = crate::text::split_seq(data.last(), '=');
        if pair.len() == 2 {
            before.insert(pair[0], pair[1])
        } else {
            before
        }
    }
}

/// Reads what the server sent.
pub fn parse_response(res: &str) -> (r: ApiResponse)
    ensures
        r@ == reply_of(res@),
{
    let mut all = lines(res);
    let ghost pieces = crate::text::lines_seq(res@);
    assert(crate::text::texts(all@).len() == all@.len());
    if all.len() == 0 {
        let data: Vec<String> = Vec::new();
        assert(crate::text::texts(data@) =~= Seq::empty());
        return ApiResponse { status: "NO_RESPONSE".to_owned(), data };
    }
    let ghost before = all@;
    let status = all.remove(0);
    assert(status@ == crate::text::texts(before)[0]);
    assert(crate::text::texts(all@) =~= pieces.drop_first());
    ApiResponse { status, data: all }
}

impl ApiResponse {
    /// The server agreed.
    pub fn is_ok(&self) -> (r: bool)
        ensures
            r == (self@.status == "OK"@),
    {
        same_text(self.status.as_str(), "OK")
    }

    /// The clock of this client runs wrong.
    pub fn is_key_expired(&self) -> (r: bool)
        ensures
            r == (self@.status == "KEY_EXPIRED"@),
    {
        same_text(self.status.as_str(), "KEY_EXPIRED")
    }

    /// The named values of the answer.
    pub fn to_map(&self) -> (r: Params)
        ensures
            r@ == named_values(self@.data),
    {
        let mut map = Params::new();
        let ghost data = self@.data;
        for i in 0..self.data.len()
            invariant
                data == crate::text::texts(self.data@),
                map@ == named_values(data.take(i as int)),
        {
            assert(data.take(i + 1).drop_last() =~= data.take(i as int));
            assert(data.take(i + 1).last() == self.data@[i as int]@);
            let mut pair = split(self.data[i].as_str(), '=');
            let ghost pieces = crate::text::split_seq(data[i as int], '=');
            assert(crate::text::texts(pair@).len() == pair@.len());
            if pair.len() == 2 {
                assert(pieces[0] == pair@[0]@ && pieces[1] == pair@[1]@);
                let value = pair.remove(1);
                let name = pair.remove(0);
                map.insert(name, value);
            }
        }
        assert(data.take(data.len() as int) =~= data);
        map
    }

    /// What the server answered instead of agreeing.
    fn refusal(&self) -> (r: Error)
        ensures
            r matches Error::ApiResponseFail { fail_code, message } && fail_code@ == self@.status
                && message@ == crate::text::join_seq(self@.data, "\n"@),
    {
        Error::ApiResponseFail { fail_code: self.status.clone(), message: join(&self.data, "\n") }
    }

    /// The data of an answer by which the server agreed.
    pub fn data_if_ok(self) -> (r: Option<Vec<String>>)
        ensures
            match r {
                Some(data) => self@.status == "OK"@ && crate::text::texts(data@) == self@.data,
                None => self@.status != "OK"@,
            },
    {
        if self.is_ok() {
            Some(self.data)
        } else {
            None
        }
    }
}

/// What may change while the client runs.
#[derive(Debug)]
pub struct Settings {
    size_limit: u64,
}

/// The limit that the server's values set, or the one that was.
pub open spec fn updated_limit(values: Map<Seq<char>, Seq<char>>, limit: u64) -> u64 {
    if values.contains_key("disklimit_bytes"@) {
        match crate::text::parse_unsigned(values["disklimit_bytes"@], u64::MAX as nat) {
            Some(v) => v as u64,
            None => limit,
        }
    } else {
        limit
    }
}

impl Settings {
    /// How much the cache may hold.
    pub closed spec fn limit(&self) -> u64 {
        self.size_limit
    }

    /// Nothing is limited until the server says so.
    pub fn new() -> (r: Settings)
        ensures
            r.limit() == u64::MAX,
    {
        Settings { size_limit: u64::MAX }
    }

    /// How much the cache may hold.
    pub fn size_limit(&self) -> (r: u64)
        ensures
            r == self.limit(),
    {
        self.size_limit
    }

    /// Takes the server's values over.
    pub fn update(&mut self, settings: &Params)
        ensures
            final(self).limit() == updated_limit(settings@, old(self).limit()),
    {
        match settings.get("disklimit_bytes") {
            Some(text) => match parse_u64(text, u64::MAX) {
                Some(size) => {
                    self.size_limit = size;
                },
                None => {},
            },
            None => {},
        }
    }
}

/// What the server tells a client that logs in.
#[verifier::ext_equal]
pub struct InitView {
    pub port: u16,
    pub host: Seq<char>,
    pub verify_cache: bool,
    pub ranges: Seq<Seq<char>>,
}

/// What the server tells a client that logs in.
#[derive(Debug)]
pub struct InitSettings {
    client_port: u16,
    client_host: String,
    verify_cache: bool,
    static_range: Vec<String>,
}

impl View for InitSettings {
    type V = InitView;

    closed spec fn view(&self) -> InitView {
        InitView {
            port: self.client_port,
            host: self.client_host@,
            verify_cache: self.verify_cache,
            ranges: crate::text::texts(self.static_range@),
        }
    }
}

impl InitSettings {
    /// The port that the server expects this client on.
    pub fn client_port(&self) -> (r: u16)
        ensures
            r == self@.port,
    {
        self.client_port
    }

    /// The address that the server knows this client by.
    pub fn client_host(&self) -> (r: &str)
        ensures
            r@ == self@.host,
    {
        self.client_host.as_str()
    }

    /// Whether every cached file must be checked.
    pub fn verify_cache(&self) -> (r: bool)
        ensures
            r == self@.verify_cache,
    {
        self.verify_cache
    }

    /// The ranges of files that this client keeps.
    pub fn static_range(&self) -> (r: Vec<String>)
        ensures
            crate::text::texts(r@) == self@.ranges,
    {
        let mut out: Vec<String> = Vec::new();
        for i in 0..self.static_range.len()
            invariant
                crate::text::texts(out@) == crate::text::texts(self.static_range@).take(i as int),
        {
            let ghost before = out@;
            out.push(self.static_range[i].clone());
            assert(crate::text::texts(out@) =~= crate::text::texts(before).push(
                self.static_range@[i as int]@,
            ));
            assert(crate::text::texts(self.static_range@).take(i + 1) =~= crate::text::texts(
                self.static_range@,
            ).take(i as int).push(self.static_range@[i as int]@));
        }
        assert(crate::text::texts(out@) =~= self@.ranges);
        out
    }
}

/// The settings that the values of a login name. A port, a host and the ranges must be among them;
/// the name of the first one that is missing comes back instead. Anything but `true` leaves the
/// cache unchecked.
pub open spec fn init_of(values: Map<Seq<char>, Seq<char>>) -> Result<InitView, Seq<char>> {
    let port = if values.contains_key("port"@) {
        crate::text::parse_unsigned(values["port"@], u16::MAX as nat)
    } else {
        None
    };
    match port {
        None => Err("port"@),
        Some(port) => if !values.contains_key("host"@) {
            Err("host"@)
        } else if !values.contains_key("static_ranges"@) {
            Err("static_ranges"@)
        } else {
            Ok(
                InitView {
                    port: port as u16,
                    host: values["host"@],
                    verify_cache: values.contains_key("verify_cache"@) && values["verify_cache"@]
                        == "true"@,
                    ranges: crate::text::split_seq(values["static_ranges"@], ';'),
                },
            )
        },
    }
}

fn read_init(map: &Params) -> (r: Result<InitSettings, Error>)
    ensures
        match r {
            Ok(settings) => init_of(map@) == Ok::<InitView, Seq<char>>(settings@),
            Err(e) => e matches Error::InitSettingsMissing(name) && init_of(map@) == Err::<
                InitView,
                Seq<char>,
            >(name@),
        },
{
    let port: Option<u64> = match map.get("port") {
        Some(text) => parse_u64(text, u16::MAX as u64),
        None => None,
    };
    let client_port: u16 = match port {
        Some(port) => port as u16,
        None => {
            return Err(Error::InitSettingsMissing("port".to_owned()));
        },
    };
    let client_host = match map.get("host") {
        Some(host) => host.to_owned(),
        None => {
            return Err(Error::InitSettingsMissing("host".to_owned()));
        },
    };
    let verify_cache = match map.get("verify_cache") {
        Some(text) => same_text(text, "true"),
        None => false,
    };
    let static_range = match map.get("static_ranges") {
        Some(text) => split(text, ';'),
        None => {
            return Err(Error::InitSettingsMissing("static_ranges".to_owned()));
        },
    };
    let settings = InitSettings { client_port, client_host, verify_cache, static_range };
    assert(init_of(map@)->Ok_0 =~= settings@);
    Ok(settings)
}

/// What the client knows of itself and of the server.
#[verifier::ext_equal]
pub struct RpcView {
    pub base: Seq<char>,
    pub clock_offset: int,
    pub id: int,
    pub key: Seq<char>,
    pub servers: Seq<Seq<char>>,
    pub running: bool,
    pub limit: u64,
}

/// The client's side of the talk with the server.
pub struct RPCClient {
    api_base: String,
    clock_offset: i64,
    id: i32,
    key: String,
    rpc_servers: Vec<String>,
    running: bool,
    settings: Settings,
}

impl View for RPCClient {
    type V = RpcView;

    closed spec fn view(&self) -> RpcView {
        RpcView {
            base: self.api_base@,
            clock_offset: self.clock_offset as int,
            id: self.id as int,
            key: self.key@,
            servers: crate::text::texts(self.rpc_servers@),
            running: self.running,
            limit: self.settings.limit(),
        }
    }
}

/// What a request is signed with.
pub open spec fn action_text(
    action: Seq<char>,
    additional: Seq<char>,
    id: int,
    time: int,
    key: Seq<char>,
) -> Seq<char> {
    "hentai@home-"@ + action + "-"@ + additional + "-"@ + crate::text::decimal_int(id) + "-"@
        + crate::text::decimal_int(time) + "-"@ + key
}

/// The pairs that a request carries.
pub open spec fn action_pairs(
    action: Seq<char>,
    additional: Seq<char>,
    id: int,
    time: int,
    key: Seq<char>,
) -> Seq<(Seq<char>, Seq<char>)> {
    seq![
        ("act"@, action),
        ("add"@, additional),
        ("cid"@, crate::text::decimal_int(id)),
        ("acttime"@, crate::text::decimal_int(time)),
        ("actkey"@, crate::util::hash_text(action_text(action, additional, id, time, key))),
    ]
}

/// The address of a request: the server's address, with another last segment where one is named,
/// and the pairs of the request.
pub open spec fn action_url(
    v: RpcView,
    action: Seq<char>,
    additional: Seq<char>,
    time: int,
    endpoint: Option<Seq<char>>,
) -> Option<Seq<char>> {
    let target = match endpoint {
        Some(segment) => crate::url::with_last_segment(v.base, segment),
        None => Some(v.base),
    };
    match target {
        Some(url) => crate::url::with_pairs(
            url,
            action_pairs(action, additional, v.id, time, v.key),
        ),
        None => None,
    }
}

/// The time that requests are signed with, for a time of this client's clock and the measured offset,
/// in seconds. An offset that leads out of what can be told is ignored.
pub open spec fn signing_time(now: int, offset: int) -> int {
    if time_in_range(now + offset) {
        now + offset
    } else {
        now
    }
}

/// Milliseconds rounded to seconds, halves away from zero.
pub open spec fn rounded_seconds(ms: int) -> int {
    if ms >= 0 {
        (ms + 500) / 1000
    } else {
        -((500 - ms) / 1000)
    }
}

/// Nanoseconds as milliseconds, what is left over dropped.
pub open spec fn whole_milliseconds(ns: int) -> int {
    if ns >= 0 {
        ns / 1_000_000
    } else {
        -((-ns) / 1_000_000)
    }
}

/// How far this client's clock is ahead of the server's, in seconds. A quarter of the time that the
/// question took has passed since the server read its clock. `None` if the server told no time.
pub open spec fn measured_offset(
    values: Map<Seq<char>, Seq<char>>,
    request_ns: int,
    now_ns: int,
) -> Option<int> {
    if !values.contains_key("server_time"@) {
        None
    } else {
        match crate::text::parse_signed(values["server_time"@], i64::MIN as int, i64::MAX as int) {
            Some(time) if time_in_range(time) && time_in_range(
                time + request_ns / 4 / 1_000_000_000,
            ) => Some(
                rounded_seconds(
                    whole_milliseconds(now_ns - (time * 1_000_000_000 + request_ns / 4)),
                ),
            ),
            _ => None,
        }
    }
}

/// The oldest version that the server accepts and the newest that there is, if it tells both.
pub open spec fn versions_of(values: Map<Seq<char>, Seq<char>>) -> Option<(int, int)> {
    if values.contains_key("min_client_build"@) && values.contains_key("cur_client_build"@) {
        match (
            crate::text::parse_signed(values["min_client_build"@], i32::MIN as int, i32::MAX as int),
            crate::text::parse_signed(values["cur_client_build"@], i32::MIN as int, i32::MAX as int),
        ) {
            (Some(min), Some(new)) => Some((min, new)),
            _ => None,
        }
    } else {
        None
    }
}

fn read_i32(map: &Params, name: &str) -> (r: Option<i32>)
    ensures
        match r {
            Some(v) => map@.contains_key(name@) && crate::text::parse_signed(
                map@[name@],
                i32::MIN as int,
                i32::MAX as int,
            ) == Some(v as int),
            None => !map@.contains_key(name@) || crate::text::parse_signed(
                map@[name@],
                i32::MIN as int,
                i32::MAX as int,
            ) is None,
        },
{
    match map.get(name) {
        Some(text) => match parse_i64(text, i32::MIN as i64, i32::MAX as i64) {
            Some(v) => Some(v as i32),
            None => None,
        },
        None => None,
    }
}

fn read_offset(map: &Params, request_ns: u64, now_secs: i64, now_nanos: u32) -> (r: Option<i64>)
    requires
        time_in_range(now_secs as int),
        now_nanos < 1_000_000_000,
    ensures
        match r {
            Some(v) => measured_offset(
                map@,
                request_ns as int,
                now_secs * 1_000_000_000 + now_nanos,
            ) == Some(v as int),
            None => measured_offset(
                map@,
                request_ns as int,
                now_secs * 1_000_000_000 + now_nanos,
            ) is None,
        },
{
    let time: i64 = match map.get("server_time") {
        Some(text) => match parse_i64(text, i64::MIN, i64::MAX) {
            Some(time) => time,
            None => {
                return None;
            },
        },
        None => {
            return None;
        },
    };
    if !timestamp_exists(time) {
        return None;
    }
    let quarter: u64 = request_ns / 4;
    if !timestamp_exists(time + (quarter / 1_000_000_000) as i64) {
        return None;
    }
    let server: i128 = time as i128 * 1_000_000_000 + quarter as i128;
    let now: i128 = now_secs as i128 * 1_000_000_000 + now_nanos as i128;
    let ns: i128 = now - server;
    let ms: i128 = if ns >= 0 { ns / 1_000_000 } else { -((-ns) / 1_000_000) };
    let rounded: i128 = if ms >= 0 { (ms + 500) / 1000 } else { -((500 - ms) / 1000) };
    Some(rounded as i64)
}

/// The servers other than the current one. Its place is taken by the last of the list.
pub open spec fn other_servers(servers: Seq<Seq<char>>, host: Option<Seq<char>>) -> Seq<Seq<char>> {
    match host {
        Some(host) if servers.contains(host) => servers.update(
            servers.index_of_first(host)->0,
            servers.last(),
        ).drop_last(),
        _ => servers,
    }
}

proof fn lemma_one_server_fewer(servers: Seq<Seq<char>>, host: Option<Seq<char>>)
    requires
        servers.len() >= 1,
    ensures
        other_servers(servers, host).len() >= servers.len() - 1,
{
    match host {
        Some(h) => {
            if servers.contains(h) {
                servers.index_of_first_ensures(h);
            }
        },
        None => {},
    }
}

/// Among servers that are all different, the current one is not among those to change to, and every
/// other one is.
pub proof fn change_leaves_current_out(servers: Seq<Seq<char>>, host: Seq<char>, other: Seq<char>)
    requires
        servers.no_duplicates(),
    ensures
        !other_servers(servers, Some(host)).contains(host),
        servers.contains(other) && other != host ==> other_servers(servers, Some(host)).contains(other),
{
    let rest = other_servers(servers, Some(host));
    if servers.contains(host) {
        servers.index_of_first_ensures(host);
        let k = servers.index_of_first(host)->0;
        assert forall|i: int| 0 <= i < rest.len() implies rest[i] != host by {
            let j = if i == k { servers.len() - 1 } else { i };
            assert(rest[i] == servers[j]);
            assert(servers[k] == host);
        }
        if servers.contains(other) && other != host {
            let j = servers.index_of(other);
            let i = if j == servers.len() - 1 { k } else { j };
            assert(rest[i] == other);
        }
    }
}

/// `choose` of `rand::seq::SliceRandom` with the thread's generator: some item of the list, and none
/// only where the list is empty. Which one is left to chance.
#[verifier::external_body]
fn choose_server(servers: &Vec<String>) -> (r: Option<String>)
    ensures
        r is None <==> servers@.len() == 0,
        r matches Some(server) ==> crate::text::texts(servers@).contains(server@),
{
    rand::seq::SliceRandom::choose(servers.as_slice(), &mut rand::thread_rng()).cloned()
}

/// The state after the server's values have been taken over, before another server is asked.
pub open spec fn with_values(
    v: RpcView,
    values: Map<Seq<char>, Seq<char>>,
    servers: Seq<Seq<char>>,
) -> RpcView {
    RpcView {
        servers: if values.contains_key("rpc_server_ip"@) {
            servers
        } else {
            v.servers
        },
        limit: updated_limit(values, v.limit),
        ..v
    }
}

/// Whether a change of the server can lead from one state to another. With no more than one server
/// known nothing changes; else one of the others is asked from then on, if it can stand in an address.
pub open spec fn server_changed(v: RpcView, after: RpcView, done: bool) -> bool {
    if v.servers.len() <= 1 {
        done && after == v
    } else {
        exists|host: Seq<char>|
            other_servers(v.servers, crate::url::url_host(v.base)).contains(host) && match #[trigger]
            crate::url::with_host(v.base, host) {
                Some(base) => done && after == (RpcView { base, ..v }),
                None => !done && after == v,
            }
    }
}

/// What a login comes to.
pub open spec fn login_outcome(stat: Option<(i32, i32)>, reply: Option<Reply>) -> LoginView {
    match (stat, reply) {
        (Some(versions), _) if versions.0 > API_VERSION => LoginView::TooOld,
        (_, None) => LoginView::NoReply,
        (_, Some(reply)) => if reply.status != "OK"@ {
            LoginView::Refused(reply.status, crate::text::join_seq(reply.data, "\n"@))
        } else {
            match init_of(named_values(reply.data)) {
                Ok(init) => LoginView::Accepted(init),
                Err(name) => LoginView::Missing(name),
            }
        },
    }
}

/// The ways in which a login can end.
pub enum LoginView {
    Accepted(InitView),
    TooOld,
    NoReply,
    Missing(Seq<char>),
    Refused(Seq<char>, Seq<char>),
}

/// What came of asking the server to start serving.
#[derive(Debug)]
pub enum StartVerdict {
    /// The client serves from now on.
    Started,
    /// The server refused. There may be something to tell the user.
    Refused { advice: Option<String> },
    /// The server could not be asked.
    NoReply,
}

/// A line of stars.
pub const RULE: &'static str =
    "\n************************************************************************************************************************************\n";

/// What the user is told of a failed test, around the port and the address.
pub const TEST_FAILED_1: &'static str =
    "The client has failed the external connection test.\nThe server failed to verify that this client is online and available from the Internet.\nIf you are behind a firewall, please check that port ";

pub const TEST_FAILED_2: &'static str =
    " is forwarded to this computer.\nYou might also want to check that ";

pub const TEST_FAILED_3: &'static str =
    " is your actual public IP address.\nIf you need assistance with forwarding a port to this client, locate a guide for your particular router at http://portforward.com/\nThe client will remain running so you can run port connection tests.\nUse Program -> Exit in windowed mode or hit Ctrl+C in console mode to exit the program.";

/// What the user is told of another client.
pub const OTHER_CLIENT: &'static str =
    "The server detected that another client was already connected from this computer or local network.\nYou can only have one client running per public IP address.\nThe program will now terminate.";

/// What the user is told of an ident that is in use.
pub const IDENT_IN_USE: &'static str =
    "The server detected that another client is already using this client ident.\nIf you want to run more than one client, you have to apply for additional idents.\nThe program will now terminate.";

/// A text between two rules.
pub open spec fn framed(text: Seq<char>) -> Seq<char> {
    "\n"@ + RULE@ + text + RULE@ + "\n"@
}

/// What the user is told when the server refuses, by its status.
pub open spec fn start_advice(status: Seq<char>, init: InitView) -> Option<Seq<char>> {
    if status == "FAIL_CONNECT_TEST"@ {
        Some(
            framed(
                TEST_FAILED_1@ + crate::text::decimal(init.port as nat) + TEST_FAILED_2@ + init.host
                    + TEST_FAILED_3@,
            ),
        )
    } else if status == "FAIL_OTHER_CLIENT_CONNECTED"@ {
        Some(framed(OTHER_CLIENT@))
    } else if status == "FAIL_CID_IN_USE"@ {
        Some(framed(IDENT_IN_USE@))
    } else {
        None
    }
}

fn frame(text: &str) -> (r: String)
    ensures
        r@ == framed(text@),
{
    let mut out = "\n".to_owned();
    out.append(RULE);
    out.append(text);
    out.append(RULE);
    out.append("\n");
    out
}

fn advise(status: &str, settings: &InitSettings) -> (r: Option<String>)
    ensures
        crate::text::opt_text(r) == start_advice(status@, settings@),
{
    if same_text(status, "FAIL_CONNECT_TEST") {
        let mut text = TEST_FAILED_1.to_owned();
        push_u64(&mut text, settings.client_port() as u64);
        text.append(TEST_FAILED_2);
        text.append(settings.client_host());
        text.append(TEST_FAILED_3);
        Some(frame(text.as_str()))
    } else if same_text(status, "FAIL_OTHER_CLIENT_CONNECTED") {
        Some(frame(OTHER_CLIENT))
    } else if same_text(status, "FAIL_CID_IN_USE") {
        Some(frame(IDENT_IN_USE))
    } else {
        None
    }
}

impl RPCClient {
    /// A client that has not talked to a server yet.
    pub fn new(id: i32, key: &str) -> (r: RPCClient)
        ensures
            r@ == (RpcView {
                base: default_base(),
                clock_offset: 0,
                id: id as int,
                key: key@,
                servers: Seq::empty(),
                running: false,
                limit: u64::MAX,
            }),
    {
        let mut api_base = "http://".to_owned();
        api_base.append(DEFAULT_SERVER);
        api_base.append("/15/rpc?clientbuild=");
        push_u64(&mut api_base, API_VERSION as u64);
        let r = RPCClient {
            api_base,
            clock_offset: 0,
            id,
            key: key.to_owned(),
            rpc_servers: Vec::new(),
            running: false,
            settings: Settings::new(),
        };
        assert(r@.servers =~= Seq::empty());
        r
    }

    /// The secret that this client shares with the server.
    pub fn key(&self) -> (r: &str)
        ensures
            r@ == self@.key,
    {
        self.key.as_str()
    }

    /// The number of this client.
    pub fn id(&self) -> (r: i32)
        ensures
            r == self@.id,
    {
        self.id
    }

    /// What may change while the client runs.
    pub fn settings(&self) -> (r: &Settings)
        ensures
            r.limit() == self@.limit,
    {
        &self.settings
    }

    /// Whether the server knows that this client serves.
    pub fn is_running(&self) -> (r: bool)
        ensures
            r == self@.running,
    {
        self.running
    }

    /// Whether an address is that of a server.
    pub fn is_vaild_rpc_server(&self, ip: &str) -> (r: bool)
        ensures
            r == self@.servers.contains(ip@),
    {
        for i in 0..self.rpc_servers.len()
            invariant
                forall|j: int| 0 <= j < i ==> #[trigger] self@.servers[j] != ip@,
        {
            assert(self@.servers[i as int] == self.rpc_servers@[i as int]@);
            if same_text(self.rpc_servers[i].as_str(), ip) {
                return true;
            }
        }
        false
    }

    /// The time that requests are signed with, for a time of this client's clock.
    pub fn get_timestemp(&self, now: i64) -> (r: i64)
        requires
            time_in_range(now as int),
        ensures
            r == signing_time(now as int, self@.clock_offset),
    {
        let sum: i128 = now as i128 + self.clock_offset as i128;
        if i64::MIN as i128 <= sum && sum <= i64::MAX as i128 && timestamp_exists(sum as i64) {
            sum as i64
        } else {
            now
        }
    }

    /// The pairs of a request that is sent at a time of the server's clock.
    pub fn action_query(&self, time: i64, action: &str, additional: &str) -> (r: Vec<
        (String, String),
    >)
        ensures
            crate::url::pair_texts(r@) == action_pairs(
                action@,
                additional@,
                self@.id,
                time as int,
                self@.key,
            ),
    {
        let id = i64_text(self.id as i64);
        let timestamp = i64_text(time);
        let mut signed = "hentai@home-".to_owned();
        signed.append(action);
        signed.append("-");
        signed.append(additional);
        signed.append("-");
        signed.append(id.as_str());
        signed.append("-");
        signed.append(timestamp.as_str());
        signed.append("-");
        signed.append(self.key.as_str());
        assert(signed@ =~= action_text(action@, additional@, self@.id, time as int, self@.key));
        let hash = string_to_hash(signed);
        let mut pairs: Vec<(String, String)> = Vec::new();
        pairs.push(("act".to_owned(), action.to_owned()));
        pairs.push(("add".to_owned(), additional.to_owned()));
        pairs.push(("cid".to_owned(), id));
        pairs.push(("acttime".to_owned(), timestamp));
        pairs.push(("actkey".to_owned(), hash));
        assert(crate::url::pair_texts(pairs@) =~= action_pairs(
            action@,
            additional@,
            self@.id,
            time as int,
            self@.key,
        ));
        pairs
    }

    /// The address of a request that is sent now, `None` if it cannot be written: the endpoint cannot
    /// stand in the server's address, or is too long for one.
    pub fn build_url(&self, now: i64, action: &str, additional: &str, endpoint: Option<&str>) -> (r:
        Option<String>)
        requires
            time_in_range(now as int),
        ensures
            crate::text::opt_text(r) == action_url(
                self@,
                action@,
                additional@,
                signing_time(now as int, self@.clock_offset),
                crate::text::opt_str(endpoint),
            ),
    {
        let time: i64 = self.get_timestemp(now);
        let target = match endpoint {
            Some(segment) => replace_last_segment(self.api_base.as_str(), segment),
            None => Some(self.api_base.clone()),
        };
        match target {
            Some(url) => {
                let pairs = self.action_query(time, action, additional);
                add_pairs(url.as_str(), &pairs)
            },
            None => None,
        }
    }

    /// The address at which the server tells its state, without a signature.
    pub fn stat_url(&self) -> (r: Option<String>)
        ensures
            crate::text::opt_text(r) == crate::url::with_pairs(
                self@.base,
                seq![("act"@, "server_stat"@)],
            ),
    {
        let mut pairs: Vec<(String, String)> = Vec::new();
        pairs.push(("act".to_owned(), "server_stat".to_owned()));
        assert(crate::url::pair_texts(pairs@) =~= seq![("act"@, "server_stat"@)]);
        add_pairs(self.api_base.as_str(), &pairs)
    }

    /// Takes the server's state over: the clock is set by it, and the versions come back.
    pub fn check_stat(
        &mut self,
        body: Option<&str>,
        request_ns: u64,
        now_secs: i64,
        now_nanos: u32,
    ) -> (r: Result<Option<(i32, i32)>, Error>)
        requires
            time_in_range(now_secs as int),
            now_nanos < 1_000_000_000,
        ensures
            match body {
                None => final(self)@ == old(self)@ && (r matches Err(
                    Error::ApiResponseFail { fail_code, message },
                ) && fail_code@ == "CONNECTION_FAILED"@ && message@
                    == "Failed to get initial stat from server."@),
                Some(text) => {
                    let reply = reply_of(text@);
                    let values = named_values(reply.data);
                    if reply.status == "OK"@ {
                        &&& final(self)@ == (RpcView {
                            clock_offset: match measured_offset(
                                values,
                                request_ns as int,
                                now_secs * 1_000_000_000 + now_nanos,
                            ) {
                                Some(offset) => offset,
                                None => old(self)@.clock_offset,
                            },
                            ..old(self)@
                        })
                        &&& r matches Ok(v) && match v {
                            Some(found) => versions_of(values) == Some(
                                (found.0 as int, found.1 as int),
                            ),
                            None => versions_of(values) is None,
                        }
                    } else {
                        &&& final(self)@ == old(self)@
                        &&& r matches Err(Error::ApiResponseFail { fail_code, message })
                            && fail_code@ == reply.status && message@ == crate::text::join_seq(
                            reply.data,
                            "\n"@,
                        )
                    }
                },
            },
    {
        let res = match body {
            Some(text) => parse_response(text),
            None => {
                return Err(Error::connection_error("Failed to get initial stat from server."));
            },
        };
        if !res.is_ok() {
            return Err(res.refusal());
        }
        let data = res.to_map();
        match read_offset(&data, request_ns, now_secs, now_nanos) {
            Some(offset) => {
                self.clock_offset = offset;
            },
            None => {},
        }
        let min_version = read_i32(&data, "min_client_build");
        let new_version = read_i32(&data, "cur_client_build");
        match (min_version, new_version) {
            (Some(min), Some(new)) => Ok(Some((min, new))),
            _ => Ok(None),
        }
    }

    /// Whether the server still accepts this version.
    pub fn version_accepted(stat: &Option<(i32, i32)>) -> (r: bool)
        ensures
            r == !(stat matches Some(versions) && versions.0 > API_VERSION),
    {
        match stat {
            Some((min, _)) => *min <= API_VERSION,
            None => true,
        }
    }

    /// Whether there is a newer version than this one.
    pub fn update_available(stat: &Option<(i32, i32)>) -> (r: bool)
        ensures
            r == (stat matches Some(versions) && versions.0 <= API_VERSION && versions.1
                > API_VERSION),
    {
        match stat {
            Some((min, new)) => *min <= API_VERSION && *new > API_VERSION,
            None => false,
        }
    }

    /// What a login comes to, given the versions that the server told and its answer.
    pub fn login(stat: &Option<(i32, i32)>, res: Option<&ApiResponse>) -> (r: Result<
        InitSettings,
        Error,
    >)
        ensures
            match login_outcome(
                *stat,
                match res {
                    Some(reply) => Some(reply@),
                    None => None,
                },
            ) {
                LoginView::Accepted(init) => r matches Ok(settings) && settings@ == init,
                LoginView::TooOld => r matches Err(Error::VersionTooOld),
                LoginView::NoReply => r matches Err(Error::ApiResponseFail { fail_code, message })
                    && fail_code@ == "CONNECTION_FAILED"@ && message@
                    == "Failed to get a login response from server."@,
                LoginView::Missing(name) => r matches Err(Error::InitSettingsMissing(n)) && n@
                    == name,
                LoginView::Refused(code, text) => r matches Err(
                    Error::ApiResponseFail { fail_code, message },
                ) && fail_code@ == code && message@ == text,
            },
    {
        if !RPCClient::version_accepted(stat) {
            return Err(Error::VersionTooOld);
        }
        match res {
            Some(res) => {
                if res.is_ok() {
                    let map = res.to_map();
                    read_init(&map)
                } else {
                    Err(res.refusal())
                }
            },
            None => Err(Error::connection_error("Failed to get a login response from server.")),
        }
    }

    /// The addresses of servers among the server's values, as they were sent.
    pub fn server_addresses(settings: &Params) -> (r: Option<Vec<String>>)
        ensures
            match r {
                Some(list) => settings@.contains_key("rpc_server_ip"@) && crate::text::texts(list@)
                    == crate::text::split_seq(settings@["rpc_server_ip"@], ';'),
                None => !settings@.contains_key("rpc_server_ip"@),
            },
    {
        match settings.get("rpc_server_ip") {
            Some(ips) => Some(split(ips, ';')),
            None => None,
        }
    }

    /// Takes the server's values over. `servers` are the addresses among them, in their usual form;
    /// where there are any, another server is asked from now on. Tells whether that could be done.
    pub fn update_settings(&mut self, settings: &Params, servers: Vec<String>) -> (r: bool)
        ensures
            ({
                let taken = with_values(old(self)@, settings@, crate::text::texts(servers@));
                if settings@.contains_key("rpc_server_ip"@) {
                    server_changed(taken, final(self)@, r)
                } else {
                    r && final(self)@ == taken
                }
            }),
    {
        self.settings.update(settings);
        if settings.get("rpc_server_ip").is_some() {
            self.rpc_servers = servers;
            self.change_server()
        } else {
            true
        }
    }

    /// The servers that can be asked instead of the current one, `None` if there is no other.
    pub fn other_servers(&self) -> (r: Option<Vec<String>>)
        ensures
            match r {
                Some(list) => self@.servers.len() > 1 && crate::text::texts(list@) == other_servers(
                    self@.servers,
                    crate::url::url_host(self@.base),
                ),
                None => self@.servers.len() <= 1,
            },
    {
        let n = self.rpc_servers.len();
        assert(self@.servers.len() == n);
        if n <= 1 {
            return None;
        }
        let host = url_host_str(self.api_base.as_str());
        let ghost names = self@.servers;
        let mut found: Option<usize> = None;
        let mut list: Vec<String> = Vec::new();
        for i in 0..n
            invariant
                n == self.rpc_servers@.len(),
                names == crate::text::texts(self.rpc_servers@),
                crate::text::texts(list@) == names.take(i as int),
                list@.len() == i,
                match found {
                    Some(k) => k < i && crate::text::opt_text(host) == Some(names[k as int]) && (
                    forall|j: int| 0 <= j < k ==> #[trigger] names[j] != names[k as int]),
                    None => forall|j: int|
                        0 <= j < i ==> Some(#[trigger] names[j]) != crate::text::opt_text(host),
                },
        {
            let ghost before = list@;
            assert(names[i as int] == self.rpc_servers@[i as int]@);
            match &host {
                Some(h) => {
                    if found.is_none() && same_text(self.rpc_servers[i].as_str(), h.as_str()) {
                        found = Some(i);
                    }
                },
                None => {},
            }
            list.push(self.rpc_servers[i].clone());
            assert(crate::text::texts(list@) =~= crate::text::texts(before).push(names[i as int]));
            assert(names.take(i + 1) =~= names.take(i as int).push(names[i as int]));
        }
        assert(names.take(n as int) =~= names);
        match found {
            Some(k) => {
                proof {
                    let h = names[k as int];
                    assert(names.contains(h));
                    names.index_of_first_ensures(h);
                    assert(names.index_of_first(h) == Some(k as int));
                }
                let ghost before = list@;
                list.swap_remove(k);
                assert(crate::text::texts(list@) =~= names.update(k as int, names.last()).drop_last());
            },
            None => {
                proof {
                    match crate::text::opt_text(host) {
                        Some(h) => {
                            assert(!names.contains(h)) by {
                                if names.contains(h) {
                                    let j = names.index_of(h);
                                    assert(Some(names[j]) == Some(h));
                                }
                            }
                        },
                        None => {},
                    }
                }
            },
        }
        Some(list)
    }

    /// Asks this server from now on, the default one if none is named. A server that cannot stand
    /// in an address, or is too long for one, is not taken over.
    pub fn switch_server(&mut self, server: Option<&str>) -> (r: bool)
        ensures
            ({
                let host = match server {
                    Some(name) => name@,
                    None => DEFAULT_SERVER@,
                };
                match crate::url::with_host(old(self)@.base, host) {
                    Some(base) => r && final(self)@ == (RpcView { base, ..old(self)@ }),
                    None => !r && final(self)@ == old(self)@,
                }
            }),
    {
        let host = match server {
            Some(name) => name,
            None => DEFAULT_SERVER,
        };
        match set_host(self.api_base.as_str(), host) {
            Some(base) => {
                self.api_base = base;
                true
            },
            None => false,
        }
    }

    /// Asks another server from now on, one of those that are known. Chance decides which. Nothing
    /// changes where no other is known.
    pub fn change_server(&mut self) -> (r: bool)
        ensures
            server_changed(old(self)@, final(self)@, r),
    {
        match self.other_servers() {
            Some(list) => {
                assert(crate::text::texts(list@).len() == list@.len());
                proof {
                    lemma_one_server_fewer(self@.servers, crate::url::url_host(self@.base));
                }
                let server = choose_server(&list);
                match server {
                    Some(name) => self.switch_server(Some(name.as_str())),
                    None => self.switch_server(None),
                }
            },
            None => true,
        }
    }

    /// Takes the server's answer to the start over.
    pub fn connect_check(&mut self, res: Option<&ApiResponse>, settings: &InitSettings) -> (r:
        StartVerdict)
        ensures
            match res {
                Some(reply) => if reply@.status == "OK"@ {
                    r is Started && final(self)@ == (RpcView { running: true, ..old(self)@ })
                } else {
                    (r matches StartVerdict::Refused { advice } && crate::text::opt_text(advice)
                        == start_advice(reply@.status, settings@)) && final(self)@ == old(self)@
                },
                None => r is NoReply && final(self)@ == old(self)@,
            },
    {
        match res {
            Some(res) => {
                if res.is_ok() {
                    self.running = true;
                    StartVerdict::Started
                } else {
                    StartVerdict::Refused { advice: advise(res.status.as_str(), settings) }
                }
            },
            None => StartVerdict::NoReply,
        }
    }

    /// Stops serving, and tells whether the server has to be told.
    pub fn shutdown(&mut self) -> (r: bool)
        ensures
            r == old(self)@.running,
            final(self)@ == (RpcView { running: false, ..old(self)@ }),
    {
        let r = self.running;
        self.running = false;
        r
    }
}

/// How often a request is sent before it counts as failed.
pub const REQUEST_TRIES: u32 = 3;

/// Whether another server may do better: this one could not be reached, did not answer in time, or
/// failed itself.
pub fn is_server_fault(connect: bool, timeout: bool, status: Option<u16>) -> (r: bool)
    ensures
        r == (connect || timeout || (status matches Some(code) && 500 <= code < 600)),
{
    connect || timeout || match status {
        Some(code) => 500 <= code && code < 600,
        None => false,
    }
}

/// What became of a request.
pub enum RequestOutcome {
    /// The server answered.
    Body(String),
    /// It did not.
    Failed { server_fault: bool },
}

/// What to do after a request.
#[derive(Debug)]
pub enum ActionStep {
    /// This is the answer.
    Done(ApiResponse),
    /// Set the clock by the server and send the request again.
    SyncClock,
    /// Send the request again, perhaps to another server.
    Retry { change_server: bool },
    /// The request has failed. The next one may go to another server.
    GiveUp { change_server: bool },
}

/// A request on its way.
#[derive(Debug)]
pub struct ActionState {
    tries: u32,
}

impl ActionState {
    /// How often the request may still fail.
    pub closed spec fn left(&self) -> nat {
        self.tries as nat
    }

    /// A request that has not been sent yet.
    pub fn new() -> (r: ActionState)
        ensures
            r.left() == REQUEST_TRIES,
    {
        ActionState { tries: REQUEST_TRIES }
    }

    /// What to do after the request was sent. Only a failure uses a try up: a client whose clock was
    /// wrong tries again.
    pub fn step(&mut self, outcome: RequestOutcome) -> (r: ActionStep)
        requires
            old(self).left() > 0,
        ensures
            match outcome {
                RequestOutcome::Body(body) => final(self).left() == old(self).left() && if reply_of(
                    body@,
                ).status == "KEY_EXPIRED"@ {
                    r is SyncClock
                } else {
                    r matches ActionStep::Done(response) && response@ == reply_of(body@)
                },
                RequestOutcome::Failed { server_fault } => final(self).left() == old(self).left() - 1
                    && if old(self).left() > 1 {
                    r == ActionStep::Retry { change_server: server_fault }
                } else {
                    r == ActionStep::GiveUp { change_server: server_fault }
                },
            },
    {
        match outcome {
            RequestOutcome::Body(body) => {
                let response = parse_response(body.as_str());
                if response.is_key_expired() {
                    ActionStep::SyncClock
                } else {
                    ActionStep::Done(response)
                }
            },
            RequestOutcome::Failed { server_fault } => {
                self.tries = self.tries - 1;
                if self.tries > 0 {
                    ActionStep::Retry { change_server: server_fault }
                } else {
                    ActionStep::GiveUp { change_server: server_fault }
                }
            },
        }
    }
}

/// Three values with semicolons between them.
fn three_values(a: &str, b: &str, c: &str) -> (r: String)
    ensures
        r@ == a@ + ";"@ + b@ + ";"@ + c@,
{
    let mut out = a.to_owned();
    out.append(";");
    out.append(b);
    out.append(";");
    out.append(c);
    out
}

impl RPCClient {
    /// What is asked for a file of a range that this client does not have.
    pub fn sr_fetch(file_index: &str, xres: &str, file_id: &str) -> (r: String)
        ensures
            r@ == file_index@ + ";"@ + xres@ + ";"@ + file_id@,
    {
        three_values(file_index, xres, file_id)
    }

    /// What is asked for the files to remove: those of so many seconds.
    pub fn get_purgelist(delta_time: u64) -> (r: String)
        ensures
            r@ == crate::text::decimal(delta_time as nat),
    {
        let mut out = String::new();
        push_u64(&mut out, delta_time);
        assert(out@ =~= crate::text::decimal(delta_time as nat));
        out
    }

    /// What is reported of downloads that failed. Nothing is reported without a failure, nor where
    /// there are so many that this client is to blame.
    pub fn dl_fails(failures: &Vec<String>) -> (r: Option<String>)
        ensures
            match r {
                Some(text) => 1 <= failures@.len() <= 50 && text@ == crate::text::join_seq(
                    crate::text::texts(failures@),
                    ";"@,
                ),
                None => !(1 <= failures@.len() <= 50),
            },
    {
        let n = failures.len();
        if n < 1 || n > 50 {
            None
        } else {
            Some(join(failures, ";"))
        }
    }

    /// What is asked for the next gallery, given the one that is done.
    pub fn queue_argument(gallery: Option<&GalleryMeta>) -> (r: String)
        ensures
            r@ == match gallery {
                Some(meta) => crate::text::decimal_int(meta@.gid) + ";"@ + meta@.minxres,
                None => Seq::empty(),
            },
    {
        let mut out = String::new();
        match gallery {
            Some(meta) => {
                push_i64(&mut out, meta.gid() as i64);
                out.append(";");
                out.append(meta.minxres());
                assert(out@ =~= crate::text::decimal_int(meta@.gid) + ";"@ + meta@.minxres);
            },
            None => {},
        }
        out
    }

    /// The description of the next gallery, if there is one. An answer without a line is no answer.
    pub fn fetch_queue(body: &str) -> (r: Option<Vec<String>>)
        requires
            crate::text::lines_seq(body@).len() > 0,
        ensures
            ({
                let all = crate::text::lines_seq(body@);
                match r {
                    Some(list) => crate::text::texts(list@) == all && all[0] != "INVALID_REQUEST"@
                        && all[0] != "NO_PENDING_DOWNLOADS"@,
                    None => all[0] == "INVALID_REQUEST"@ || all[0] == "NO_PENDING_DOWNLOADS"@,
                }
            }),
    {
        let all = lines(body);
        assert(crate::text::texts(all@).len() == all@.len());
        assert(crate::text::texts(all@)[0] == all@[0]@);
        if same_text(all[0].as_str(), "INVALID_REQUEST") || same_text(
            all[0].as_str(),
            "NO_PENDING_DOWNLOADS",
        ) {
            None
        } else {
            Some(all)
        }
    }

    /// What is asked for a file of a gallery.
    pub fn dl_fetch(gid: i32, page: usize, fileindex: usize, xres: &str, force_image_server: bool) -> (r:
        String)
        ensures
            r@ == crate::text::decimal_int(gid as int) + ";"@ + crate::text::decimal(page as nat)
                + ";"@ + crate::text::decimal(fileindex as nat) + ";"@ + xres@ + ";"@ + (
            if force_image_server {
                "1"@
            } else {
                "0"@
            }),
    {
        let mut out = i64_text(gid as i64);
        out.append(";");
        push_u64(&mut out, page as u64);
        out.append(";");
        push_u64(&mut out, fileindex as u64);
        out.append(";");
        out.append(xres);
        out.append(";");
        out.append(
            if force_image_server {
                "1"
            } else {
                "0"
            },
        );
        out
    }

    /// What is said with a sign of life.
    pub fn still_alive(resume: bool) -> (r: String)
        ensures
            r@ == if resume {
                "resume"@
            } else {
                ""@
            },
    {
        if resume {
            "resume".to_owned()
        } else {
            "".to_owned()
        }
    }

    /// The values to take over from the server's settings, if it sent them.
    pub fn refresh_settings(res: Option<&ApiResponse>) -> (r: Option<Params>)
        ensures
            match r {
                Some(values) => res matches Some(reply) && reply@.status == "OK"@ && values@
                    == named_values(reply@.data),
                None => !(res matches Some(reply) && reply@.status == "OK"@),
            },
    {
        match res {
            Some(res) => {
                if res.is_ok() {
                    Some(res.to_map())
                } else {
                    None
                }
            },
            None => None,
        }
    }
}

/// A clock that is off by whole seconds is found to be off by as many, when a quarter of the time that
/// the question took has passed since the server read its clock.
pub proof fn offset_is_measured(
    values: Map<Seq<char>, Seq<char>>,
    time: int,
    ahead: int,
    quarter: nat,
)
    requires
        values.contains_key("server_time"@),
        values["server_time"@] == crate::text::decimal_int(time),
        time_in_range(time),
        time_in_range(time + quarter as int / 1_000_000_000),
    ensures
        measured_offset(
            values,
            4 * quarter as int,
            (time + ahead) * 1_000_000_000 + quarter as int,
        ) == Some(ahead),
{
    crate::text::lemma_parse_decimal_int(time, i64::MIN as int, i64::MAX as int);
    assert((4 * quarter as int) / 4 == quarter);
}

/// What a request is signed with is put together from six pieces with hyphens between them: a fixed word,
/// the action, its argument, the number of this client, the time and the secret. A request carries the
/// action, the argument, the number, the time and the digest of that text, each under its name.
pub proof fn request_is_signed(
    client: &RPCClient,
    time: i64,
    action: &str,
    additional: &str,
    r: Vec<(String, String)>,
)
    requires
        call_ensures(RPCClient::action_query, (client, time, action, additional), r),
    ensures
        crate::url::pair_texts(r@) == seq![
            ("act"@, action@),
            ("add"@, additional@),
            ("cid"@, crate::text::decimal_int(client@.id)),
            ("acttime"@, crate::text::decimal_int(time as int)),
            (
                "actkey"@,
                crate::util::hash_text(
                    crate::text::join_seq(
                        seq![
                            "hentai@home"@,
                            action@,
                            additional@,
                            crate::text::decimal_int(client@.id),
                            crate::text::decimal_int(time as int),
                            client@.key,
                        ],
                        seq!['-'],
                    ),
                ),
            ),
        ],
{
    lemma_action_text(action@, additional@, client@.id, time as int, client@.key);
}

proof fn lemma_action_text(action: Seq<char>, additional: Seq<char>, id: int, time: int, key: Seq<char>)
    ensures
        action_text(action, additional, id, time, key) == crate::text::join_seq(
            seq![
                "hentai@home"@,
                action,
                additional,
                crate::text::decimal_int(id),
                crate::text::decimal_int(time),
                key,
            ],
            seq!['-'],
        ),
{
    reveal_strlit("hentai@home");
    reveal_strlit("hentai@home-");
    reveal_strlit("-");
    let a = crate::text::decimal_int(id);
    let b = crate::text::decimal_int(time);
    let word = "hentai@home"@;
    let parts = seq![word, action, additional, a, b, key];
    reveal_with_fuel(crate::text::join_seq, 7);
    assert(parts.drop_last() =~= seq![word, action, additional, a, b]);
    assert(parts.drop_last().drop_last() =~= seq![word, action, additional, a]);
    assert(parts.drop_last().drop_last().drop_last() =~= seq![word, action, additional]);
    assert(parts.drop_last().drop_last().drop_last().drop_last() =~= seq![word, action]);
    assert(parts.drop_last().drop_last().drop_last().drop_last().drop_last() =~= seq![word]);
    assert(action_text(action, additional, id, time, key) =~= crate::text::join_seq(parts, seq!['-']));
}

/// Requests that differ in one piece are signed differently: in the action, the argument, the number, the
/// time or the secret.
pub proof fn signed_requests_differ(
    action: Seq<char>,
    additional: Seq<char>,
    id: int,
    time: int,
    key: Seq<char>,
    other: Seq<char>,
    number: int,
)
    ensures
        action_text(action, additional, id, time, key) == action_text(action, other, id, time, key)
            ==> additional == other,
        action_text(action, additional, id, time, key) == action_text(other, additional, id, time, key)
            ==> action == other,
        action_text(action, additional, id, time, key) == action_text(action, additional, id, time, other)
            ==> key == other,
        action_text(action, additional, id, time, key) == action_text(action, additional, number, time, key)
            ==> id == number,
        action_text(action, additional, id, time, key) == action_text(action, additional, id, number, key)
            ==> time == number,
{
    let word = "hentai@home-"@;
    let sep = "-"@;
    let a = crate::text::decimal_int(id);
    let b = crate::text::decimal_int(time);
    let c = crate::text::decimal_int(number);
    let end = sep + a + sep + b + sep + key;
    lemma_regroup(word, action, sep, additional, a, b, key);
    lemma_regroup(word, other, sep, additional, a, b, key);
    lemma_regroup(word, action, sep, other, a, b, key);
    lemma_regroup(word, action, sep, additional, a, b, other);
    lemma_regroup(word, action, sep, additional, c, b, key);
    lemma_regroup(word, action, sep, additional, a, c, key);
    crate::text::middle_is_told(word, action, other, sep + additional + end);
    crate::text::middle_is_told(word + action + sep, additional, other, end);
    crate::text::middle_is_told(
        word + action + sep + additional + sep + a + sep + b + sep,
        key,
        other,
        Seq::empty(),
    );
    crate::text::middle_is_told(word + action + sep + additional + sep, a, c, sep + b + sep + key);
    crate::text::middle_is_told(word + action + sep + additional + sep + a + sep, b, c, sep + key);
    crate::text::integers_are_written_once(id, number);
    crate::text::integers_are_written_once(time, number);
}

proof fn lemma_regroup(
    word: Seq<char>,
    action: Seq<char>,
    sep: Seq<char>,
    additional: Seq<char>,
    a: Seq<char>,
    b: Seq<char>,
    key: Seq<char>,
)
    ensures
        ({
            let whole = word + action + sep + additional + sep + a + sep + b + sep + key;
            let end = sep + a + sep + b + sep + key;
            &&& whole == word + action + (sep + additional + end)
            &&& whole == word + action + sep + additional + end
            &&& whole == word + action + sep + additional + sep + a + sep + b + sep + key + Seq::empty()
            &&& whole == word + action + sep + additional + sep + a + (sep + b + sep + key)
            &&& whole == word + action + sep + additional + sep + a + sep + b + (sep + key)
        }),
{
    let whole = word + action + sep + additional + sep + a + sep + b + sep + key;
    let end = sep + a + sep + b + sep + key;
    assert(whole =~= word + action + (sep + additional + end));
    assert(whole =~= word + action + sep + additional + end);
    assert(whole =~= whole + Seq::empty());
    assert(whole =~= word + action + sep + additional + sep + a + (sep + b + sep + key));
    assert(whole =~= word + action + sep + additional + sep + a + sep + b + (sep + key));
}

/// The address of a request is the server's address, with another last segment where one is named, and with
/// the pairs of the request, signed at the time of the server's clock.
pub proof fn address_carries_request(
    client: &RPCClient,
    now: i64,
    action: &str,
    additional: &str,
    endpoint: Option<&str>,
    time: i64,
    pairs: Vec<(String, String)>,
    r: Option<String>,
)
    requires
        call_ensures(RPCClient::build_url, (client, now, action, additional, endpoint), r),
        call_ensures(RPCClient::get_timestemp, (client, now), time),
        call_ensures(RPCClient::action_query, (client, time, action, additional), pairs),
    ensures
        match endpoint {
            None => crate::text::opt_text(r) == crate::url::with_pairs(
                client@.base,
                crate::url::pair_texts(pairs@),
            ),
            Some(segment) => match crate::url::with_last_segment(client@.base, segment@) {
                Some(url) => crate::text::opt_text(r) == crate::url::with_pairs(
                    url,
                    crate::url::pair_texts(pairs@),
                ),
                None => r is None,
            },
        },
{
}

/// A client starts with the default server, as its build, and unlimited; and with a clock that is right.
pub proof fn client_starts_with_default_server(id: i32, key: &str, r: RPCClient, now: i64, time: i64)
    requires
        call_ensures(RPCClient::new, (id, key), r),
        call_ensures(RPCClient::get_timestemp, (&r, now), time),
        time_in_range(now as int),
    ensures
        r@.base == "http://rpc.hentaiathome.net/15/rpc?clientbuild=154"@,
        r@.id == id && r@.key == key@ && !r@.running && r@.servers.len() == 0,
        r@.limit == u64::MAX,
        time == now,
{
    reveal_strlit("http://");
    reveal_strlit("rpc.hentaiathome.net");
    reveal_strlit("/15/rpc?clientbuild=");
    reveal_strlit("http://rpc.hentaiathome.net/15/rpc?clientbuild=154");
    reveal_with_fuel(crate::text::decimal, 4);
    assert(crate::text::decimal(154) =~= seq!['1', '5', '4']);
    assert(r@.base =~= "http://rpc.hentaiathome.net/15/rpc?clientbuild=154"@);
}

/// Requests are signed with the client's clock and the measured offset: a client whose clock is off by some
/// seconds signs by as many seconds more, and the time that passes between two requests is told as it is.
pub proof fn signing_follows_clock(client: &RPCClient, now: i64, later: i64, x: i64, y: i64)
    requires
        call_ensures(RPCClient::get_timestemp, (client, now), x),
        call_ensures(RPCClient::get_timestemp, (client, later), y),
        time_in_range(now as int) && time_in_range(later as int),
        time_in_range(now + client@.clock_offset) && time_in_range(later + client@.clock_offset),
    ensures
        x == now + client@.clock_offset,
        y - x == later - now,
{
}

/// Milliseconds are rounded to the nearest second, halves away from zero, and the same way in both
/// directions.
pub proof fn seconds_are_nearest(ms: int)
    ensures
        -500 <= 1000 * rounded_seconds(ms) - ms <= 500,
        rounded_seconds(-ms) == -rounded_seconds(ms),
        ms >= 0 ==> 1000 * rounded_seconds(ms) - ms > -500,
        -1_000_000 < 1_000_000 * whole_milliseconds(ms) - ms < 1_000_000,
        ms >= 0 ==> 0 <= 1_000_000 * whole_milliseconds(ms) <= ms,
        whole_milliseconds(-ms) == -whole_milliseconds(ms),
{
}

/// The measured offset is that between the clocks, to half a second: this client's time less the server's,
/// a quarter of the time that the question took counted to the server.
pub proof fn offset_is_near(values: Map<Seq<char>, Seq<char>>, time: int, request_ns: int, now_ns: int)
    requires
        values.contains_key("server_time"@),
        values["server_time"@] == crate::text::decimal_int(time),
        request_ns >= 0,
        time_in_range(time),
        time_in_range(time + request_ns / 4 / 1_000_000_000),
    ensures
        measured_offset(values, request_ns, now_ns) matches Some(offset) && -501_000_000 <= offset
            * 1_000_000_000 - (now_ns - time * 1_000_000_000 - request_ns / 4) <= 501_000_000,
{
    crate::text::lemma_parse_decimal_int(time, i64::MIN as int, i64::MAX as int);
    let ns = now_ns - (time * 1_000_000_000 + request_ns / 4);
    seconds_are_nearest(ns);
    seconds_are_nearest(whole_milliseconds(ns));
}

/// Without a time of the server, or with one that cannot be told, the clock is left as it is.
pub proof fn offset_needs_server_time(values: Map<Seq<char>, Seq<char>>, request_ns: int, now_ns: int)
    ensures
        !values.contains_key("server_time"@) ==> measured_offset(values, request_ns, now_ns) is None,
        values.contains_key("server_time"@) && crate::text::parse_signed(
            values["server_time"@],
            i64::MIN as int,
            i64::MAX as int,
        ) is None ==> measured_offset(values, request_ns, now_ns) is None,
{
}

/// The limit is the one that the server has sent last, whatever it was before, larger or smaller; values
/// without a limit, or with one that is no number, leave it as it is.
pub proof fn limit_follows_server(settings: &mut Settings, values: &Params, n: nat)
    requires
        call_ensures(Settings::update, (settings, values), ()),
    ensures
        values@.contains_key("disklimit_bytes"@) && values@["disklimit_bytes"@] == crate::text::decimal(n) && n
            <= u64::MAX ==> final(settings).limit() == n,
        !values@.contains_key("disklimit_bytes"@) ==> final(settings).limit() == old(settings).limit(),
        values@.contains_key("disklimit_bytes"@) && crate::text::parse_unsigned(
            values@["disklimit_bytes"@],
            u64::MAX as nat,
        ) is None ==> final(settings).limit() == old(settings).limit(),
{
    if n <= u64::MAX {
        crate::text::lemma_parse_decimal(n, u64::MAX as nat);
    }
}

/// What the limit is after an update does not depend on what it was, where the server has sent one.
pub proof fn limit_forgets_the_old_one(a: &mut Settings, b: &mut Settings, values: &Params, n: nat)
    requires
        call_ensures(Settings::update, (a, values), ()),
        call_ensures(Settings::update, (b, values), ()),
        values@.contains_key("disklimit_bytes"@),
        values@["disklimit_bytes"@] == crate::text::decimal(n),
        n <= u64::MAX,
    ensures
        final(a).limit() == final(b).limit(),
{
    crate::text::lemma_parse_decimal(n, u64::MAX as nat);
}

/// The limit that a client is told comes back from its settings: it is unlimited until then.
pub proof fn limit_is_read_back(s: Settings, a: &mut Settings, values: &Params, n: nat, before: u64, after: u64)
    requires
        call_ensures(Settings::new, (), s),
        call_ensures(Settings::size_limit, (&s,), before),
        call_ensures(Settings::update, (a, values), ()),
        call_ensures(Settings::size_limit, (final(a),), after),
        values@.contains_key("disklimit_bytes"@),
        values@["disklimit_bytes"@] == crate::text::decimal(n),
        n <= u64::MAX,
    ensures
        before == u64::MAX,
        after == n,
{
    crate::text::lemma_parse_decimal(n, u64::MAX as nat);
}

/// A client that takes the server's values over has its limit from then on; without servers among the values
/// nothing else changes.
pub proof fn client_takes_limit_over(client: &mut RPCClient, values: &Params, servers: Vec<String>, r: bool, n: nat)
    requires
        call_ensures(RPCClient::update_settings, (client, values, servers), r),
        values@.contains_key("disklimit_bytes"@),
        values@["disklimit_bytes"@] == crate::text::decimal(n),
        n <= u64::MAX,
    ensures
        final(client)@.limit == n,
        final(client)@.key == old(client)@.key && final(client)@.id == old(client)@.id,
        final(client)@.clock_offset == old(client)@.clock_offset,
        final(client)@.running == old(client)@.running,
        !values@.contains_key("rpc_server_ip"@) ==> r && final(client)@.servers == old(client)@.servers
            && final(client)@.base == old(client)@.base,
        values@.contains_key("rpc_server_ip"@) ==> final(client)@.servers == crate::text::texts(servers@),
{
    crate::text::lemma_parse_decimal(n, u64::MAX as nat);
}

/// What the server sent is read by lines: the first is the status, the others are the data, whether the last
/// line is ended or not.
pub proof fn reply_reads_back(status: Seq<char>, data: Seq<Seq<char>>)
    requires
        crate::text::is_line(status),
        status.len() > 0,
        forall|i: int| 0 <= i < data.len() ==> crate::text::is_line(#[trigger] data[i]) && data[i].len() > 0,
    ensures
        reply_of(crate::text::join_seq(seq![status] + data, seq!['\n'])) == (Reply { status, data }),
        reply_of(crate::text::join_seq(seq![status] + data, seq!['\n']) + seq!['\n']) == (Reply { status, data }),
{
    let all = seq![status] + data;
    assert forall|i: int| 0 <= i < all.len() implies crate::text::is_line(#[trigger] all[i]) && all[i].len()
        > 0 by {
        if i > 0 {
            assert(all[i] == data[i - 1]);
        }
    }
    assert(all.last().len() > 0);
    crate::text::lines_read_back(all);
    assert(all.drop_first() =~= data);
}

/// A named value is that of the last line of its name: the name, one equals sign, and the value.
pub proof fn last_line_gives_value(data: Seq<Seq<char>>, i: int, name: Seq<char>, value: Seq<char>)
    requires
        0 <= i < data.len(),
        !name.contains('='),
        !value.contains('='),
        data[i] == name + seq!['='] + value,
        forall|j: int| i < j < data.len() ==> !name.push('=').is_prefix_of(#[trigger] data[j]),
    ensures
        named_values(data).contains_key(name),
        named_values(data)[name] == value,
    decreases data.len(),
{
    let pair = crate::text::split_seq(data.last(), '=');
    if i == data.len() - 1 {
        crate::text::split_of_pair(name, value, '=');
    } else {
        assert(data.drop_last()[i] == data[i]);
        assert forall|j: int| i < j < data.drop_last().len() implies !name.push('=').is_prefix_of(
            #[trigger] data.drop_last()[j],
        ) by {
            assert(data.drop_last()[j] == data[j]);
        }
        last_line_gives_value(data.drop_last(), i, name, value);
        assert(!name.push('=').is_prefix_of(data[data.len() - 1]));
        if pair.len() == 2 && pair[0] == name {
            crate::text::join_begins_with_first(pair, '=');
            crate::text::join_of_split(data.last(), '=');
        }
    }
}

/// Every named value stands in a line of its own: its name, an equals sign, and the value.
pub proof fn values_come_from_lines(data: Seq<Seq<char>>, name: Seq<char>)
    requires
        named_values(data).contains_key(name),
    ensures
        exists|i: int|
            0 <= i < data.len() && #[trigger] data[i] == name + seq!['='] + named_values(data)[name],
    decreases data.len(),
{
    let last = data.last();
    let pair = crate::text::split_seq(last, '=');
    if pair.len() == 2 && pair[0] == name {
        crate::text::join_of_split(last, '=');
        reveal_with_fuel(crate::text::join_seq, 3);
        assert(pair.drop_last() =~= seq![pair[0]]);
        assert(crate::text::join_seq(pair, seq!['=']) =~= pair[0] + seq!['='] + pair[1]);
        assert(data[data.len() - 1] == name + seq!['='] + named_values(data)[name]);
    } else {
        values_come_from_lines(data.drop_last(), name);
        let before = data.drop_last();
        let i = choose|i: int|
            0 <= i < before.len() && #[trigger] before[i] == name + seq!['='] + named_values(before)[name];
        assert(data[i] == before[i]);
        assert(named_values(data)[name] == named_values(before)[name]);
    }
}

/// A login by which the server agrees gives its port, its host and its ranges as the server has sent them;
/// every cached file is checked exactly where the server says so.
pub proof fn login_gives_settings(
    stat: &Option<(i32, i32)>,
    reply: &ApiResponse,
    r: Result<InitSettings, Error>,
    port: u16,
    ranges: Seq<Seq<char>>,
)
    requires
        call_ensures(RPCClient::login, (stat, Some(reply)), r),
        reply@.status == "OK"@,
        *stat matches Some(versions) ==> versions.0 <= 154,
        named_values(reply@.data).contains_key("port"@),
        named_values(reply@.data)["port"@] == crate::text::decimal(port as nat),
        named_values(reply@.data).contains_key("host"@),
        named_values(reply@.data).contains_key("static_ranges"@),
        named_values(reply@.data)["static_ranges"@] == crate::text::join_seq(ranges, seq![';']),
        ranges.len() >= 1,
        forall|i: int| 0 <= i < ranges.len() ==> !(#[trigger] ranges[i]).contains(';'),
    ensures
        r matches Ok(settings) && settings@.port == port && settings@.host == named_values(reply@.data)["host"@]
            && settings@.ranges == ranges && (settings@.verify_cache <==> named_values(
            reply@.data,
        ).contains_key("verify_cache"@) && named_values(reply@.data)["verify_cache"@] == "true"@),
{
    crate::text::lemma_parse_decimal(port as nat, u16::MAX as nat);
    crate::text::split_of_join(ranges, ';');
}

/// A client that is too old is told so, whatever the server answers; one that is not and gets no answer, or
/// a refusal, is told that; and a login without a port, a host or ranges does not succeed.
pub proof fn login_fails_for_a_reason(
    stat: &Option<(i32, i32)>,
    reply: Option<&ApiResponse>,
    r: Result<InitSettings, Error>,
)
    requires
        call_ensures(RPCClient::login, (stat, reply), r),
    ensures
        (r matches Err(Error::VersionTooOld)) <==> (*stat matches Some(versions) && versions.0 > 154),
        r is Ok ==> (reply matches Some(answer) && answer@.status == "OK"@ && {
            let values = named_values(answer@.data);
            values.contains_key("port"@) && values.contains_key("host"@) && values.contains_key(
                "static_ranges"@,
            )
        }),
        !(*stat matches Some(versions) && versions.0 > 154) && (reply matches Some(answer) && answer@.status
            != "OK"@) ==> (r matches Err(Error::ApiResponseFail { fail_code, message }) && fail_code@
            == reply->0@.status && message@ == crate::text::join_seq(reply->0@.data, "\n"@)),
{
}

/// The state of the server tells the versions: this client is accepted from the oldest version on, and there
/// is an update where the newest one is newer.
pub proof fn versions_decide(min: i32, new: i32, accepted: bool, update: bool)
    requires
        call_ensures(RPCClient::version_accepted, (&Some((min, new)),), accepted),
        call_ensures(RPCClient::update_available, (&Some((min, new)),), update),
    ensures
        accepted <==> min <= 154,
        update <==> accepted && new > 154,
{
}

/// The state of the server is read from what it sent: the oldest and the newest version as they stand there,
/// and the clock set by its time; nothing else of the client changes.
pub proof fn state_is_read(
    client: &mut RPCClient,
    text: &str,
    request_ns: u64,
    now_secs: i64,
    now_nanos: u32,
    r: Result<Option<(i32, i32)>, Error>,
    min: i32,
    new: i32,
)
    requires
        call_ensures(RPCClient::check_stat, (client, Some(text), request_ns, now_secs, now_nanos), r),
        reply_of(text@).status == "OK"@,
        named_values(reply_of(text@).data).contains_key("min_client_build"@),
        named_values(reply_of(text@).data)["min_client_build"@] == crate::text::decimal_int(min as int),
        named_values(reply_of(text@).data).contains_key("cur_client_build"@),
        named_values(reply_of(text@).data)["cur_client_build"@] == crate::text::decimal_int(new as int),
    ensures
        r matches Ok(Some(versions)) && versions == (min, new),
        final(client)@ == (RpcView { clock_offset: final(client)@.clock_offset, ..old(client)@ }),
        measured_offset(
            named_values(reply_of(text@).data),
            request_ns as int,
            now_secs * 1_000_000_000 + now_nanos,
        ) matches Some(offset) ==> final(client)@.clock_offset == offset,
        !named_values(reply_of(text@).data).contains_key("server_time"@) ==> final(client)@.clock_offset == old(
            client,
        )@.clock_offset,
{
    crate::text::lemma_parse_decimal_int(min as int, i32::MIN as int, i32::MAX as int);
    crate::text::lemma_parse_decimal_int(new as int, i32::MIN as int, i32::MAX as int);
}

/// The servers to change to are the known ones without one entry of the current one: none is lost, none comes
/// in.
pub proof fn other_servers_are_the_rest(servers: Seq<Seq<char>>, host: Seq<char>)
    ensures
        servers.contains(host) ==> other_servers(servers, Some(host)).to_multiset()
            == servers.to_multiset().remove(host),
        !servers.contains(host) ==> other_servers(servers, Some(host)) == servers,
        other_servers(servers, None) == servers,
{
    if servers.contains(host) {
        servers.index_of_first_ensures(host);
        let k = servers.index_of_first(host)->0;
        let n = servers.len();
        let rest = other_servers(servers, Some(host));
        broadcast use vstd::seq_lib::group_to_multiset_ensures;
        assert(servers =~= servers.drop_last().push(servers.last()));
        assert(servers.to_multiset() =~= servers.drop_last().to_multiset().insert(servers.last()));
        if k == n - 1 {
            assert(rest =~= servers.drop_last());
            assert(servers.to_multiset().remove(host) =~= rest.to_multiset());
        } else {
            assert(rest =~= servers.drop_last().update(k, servers.last()));
            vstd::seq_lib::to_multiset_update(servers.drop_last(), k, servers.last());
            assert(rest.to_multiset() =~= servers.drop_last().to_multiset().insert(servers.last()).remove(
                servers.drop_last()[k],
            ));
            assert(servers.drop_last()[k] == host);
            assert(servers.to_multiset().remove(host) =~= rest.to_multiset());
        }
    }
}

/// A change of the server leads to another of the known servers, where there is one, and to nothing else:
/// its name stands in the address from then on, and the rest of the client is as before.
pub proof fn change_leads_to_another_server(client: &mut RPCClient, r: bool)
    requires
        call_ensures(RPCClient::change_server, (client,), r),
    ensures
        final(client)@ == (RpcView { base: final(client)@.base, ..old(client)@ }),
        old(client)@.servers.len() <= 1 ==> r && final(client)@.base == old(client)@.base,
        old(client)@.servers.len() > 1 && r ==> exists|host: Seq<char>|
            old(client)@.servers.contains(host) && #[trigger] crate::url::with_host(old(client)@.base, host)
                == Some(final(client)@.base) && (old(client)@.servers.no_duplicates() ==> crate::url::url_host(
                old(client)@.base,
            ) != Some(host)),
        !r ==> final(client)@ == old(client)@,
{
    let v = old(client)@;
    let current = crate::url::url_host(v.base);
    if v.servers.len() > 1 {
        let host = choose|host: Seq<char>|
            other_servers(v.servers, current).contains(host) && match #[trigger] crate::url::with_host(
                v.base,
                host,
            ) {
                Some(base) => r && final(client)@ == (RpcView { base, ..v }),
                None => !r && final(client)@ == v,
            };
        lemma_other_is_known(v.servers, current, host);
        match current {
            Some(h) => {
                if v.servers.no_duplicates() {
                    change_leaves_current_out(v.servers, h, host);
                }
            },
            None => {},
        }
        if r {
            assert(crate::url::with_host(v.base, host) == Some(final(client)@.base));
        }
    }
}

proof fn lemma_other_is_known(servers: Seq<Seq<char>>, current: Option<Seq<char>>, host: Seq<char>)
    requires
        other_servers(servers, current).contains(host),
    ensures
        servers.contains(host),
{
    let rest = other_servers(servers, current);
    match current {
        Some(h) => {
            if servers.contains(h) {
                servers.index_of_first_ensures(h);
                let i = rest.index_of(host);
                let k = servers.index_of_first(h)->0;
                let j = if i == k { servers.len() - 1 } else { i };
                assert(servers[j] == host);
            }
        },
        None => {},
    }
}

/// A request that fails is sent three times, and no more; after a failure of the server another server may be
/// asked. An answer, or a clock that is wrong, uses no try up.
pub proof fn request_is_sent_three_times(
    start: ActionState,
    a: &mut ActionState,
    b: &mut ActionState,
    c: &mut ActionState,
    faults: (bool, bool, bool),
    r: (ActionStep, ActionStep, ActionStep),
)
    requires
        call_ensures(ActionState::new, (), start),
        *old(a) == start,
        call_ensures(ActionState::step, (a, (RequestOutcome::Failed { server_fault: faults.0 })), r.0),
        *old(b) == *final(a),
        call_ensures(ActionState::step, (b, (RequestOutcome::Failed { server_fault: faults.1 })), r.1),
        *old(c) == *final(b),
        call_ensures(ActionState::step, (c, (RequestOutcome::Failed { server_fault: faults.2 })), r.2),
    ensures
        r.0 == (ActionStep::Retry { change_server: faults.0 }),
        r.1 == (ActionStep::Retry { change_server: faults.1 }),
        r.2 == (ActionStep::GiveUp { change_server: faults.2 }),
{
}

/// An answer is handed on as it was read, unless the server says that the time of the request was wrong: the
/// clock is set then, and the request is sent again, with as many tries left.
pub proof fn answer_is_handed_on(state: &mut ActionState, body: String, r: ActionStep)
    requires
        call_ensures(ActionState::step, (state, RequestOutcome::Body(body)), r),
    ensures
        final(state).left() == old(state).left(),
        r is SyncClock <==> reply_of(body@).status == "KEY_EXPIRED"@,
        r matches ActionStep::Done(reply) ==> reply@ == reply_of(body@),
        r is SyncClock || r is Done,
{
}

/// A server is at fault where it cannot be reached, does not answer in time, or says that it failed itself;
/// a refusal is not its fault.
pub proof fn server_is_blamed(connect: bool, timeout: bool, code: u16, r: bool, s: bool)
    requires
        call_ensures(is_server_fault, (connect, timeout, Some(code)), r),
        call_ensures(is_server_fault, (connect, timeout, None), s),
    ensures
        connect || timeout ==> r && s,
        code / 100 == 5 ==> r,
        !connect && !timeout && code / 100 != 5 ==> !r,
        !connect && !timeout ==> !s,
{
}

/// What is asked for a file of a gallery, taken apart at the semicolons: the gallery, the page, the number of
/// the file, its resolution, and whether the server's own image server is wanted.
pub proof fn gallery_file_is_asked_for(gid: i32, page: usize, fileindex: usize, xres: &str, force: bool, r: String)
    requires
        call_ensures(RPCClient::dl_fetch, (gid, page, fileindex, xres, force), r),
        !xres@.contains(';'),
    ensures
        crate::text::split_seq(r@, ';') == seq![
            crate::text::decimal_int(gid as int),
            crate::text::decimal(page as nat),
            crate::text::decimal(fileindex as nat),
            xres@,
            if force {
                seq!['1']
            } else {
                seq!['0']
            },
        ],
{
    reveal_strlit(";");
    reveal_strlit("1");
    reveal_strlit("0");
    let flag = if force {
        seq!['1']
    } else {
        seq!['0']
    };
    let a = crate::text::decimal_int(gid as int);
    let b = crate::text::decimal(page as nat);
    let c = crate::text::decimal(fileindex as nat);
    let parts = seq![a, b, c, xres@, flag];
    crate::text::numbers_hold_digits(gid as int, ';');
    crate::text::numbers_hold_digits(page as int, ';');
    crate::text::numbers_hold_digits(fileindex as int, ';');
    assert forall|i: int| 0 <= i < parts.len() implies !(#[trigger] parts[i]).contains(';') by {}
    crate::text::split_of_join(parts, ';');
    reveal_with_fuel(crate::text::join_seq, 6);
    assert(parts.drop_last() =~= seq![a, b, c, xres@]);
    assert(parts.drop_last().drop_last() =~= seq![a, b, c]);
    assert(parts.drop_last().drop_last().drop_last() =~= seq![a, b]);
    assert(parts.drop_last().drop_last().drop_last().drop_last() =~= seq![a]);
    assert(r@ =~= crate::text::join_seq(parts, seq![';']));
}

/// What is asked for a file of a range, taken apart at the semicolons, is what was to be asked.
pub proof fn range_file_is_asked_for(index: &str, xres: &str, file_id: &str, r: String)
    requires
        call_ensures(RPCClient::sr_fetch, (index, xres, file_id), r),
        !index@.contains(';') && !xres@.contains(';') && !file_id@.contains(';'),
    ensures
        crate::text::split_seq(r@, ';') == seq![index@, xres@, file_id@],
{
    reveal_strlit(";");
    let parts = seq![index@, xres@, file_id@];
    assert forall|i: int| 0 <= i < parts.len() implies !(#[trigger] parts[i]).contains(';') by {}
    crate::text::split_of_join(parts, ';');
    reveal_with_fuel(crate::text::join_seq, 4);
    assert(parts.drop_last() =~= seq![index@, xres@]);
    assert(parts.drop_last().drop_last() =~= seq![index@]);
    assert(r@ =~= crate::text::join_seq(parts, seq![';']));
}

/// The next gallery is asked for by the number and the resolution of the one that is done, or by nothing.
pub proof fn next_gallery_is_asked_for(gallery: &GalleryMeta, r: String, none: String)
    requires
        call_ensures(RPCClient::queue_argument, (Some(gallery),), r),
        call_ensures(RPCClient::queue_argument, (None,), none),
        !gallery@.minxres.contains(';'),
    ensures
        crate::text::split_seq(r@, ';') == seq![crate::text::decimal_int(gallery@.gid), gallery@.minxres],
        none@.len() == 0,
{
    reveal_strlit(";");
    crate::text::numbers_hold_digits(gallery@.gid, ';');
    crate::text::split_of_pair(crate::text::decimal_int(gallery@.gid), gallery@.minxres, ';');
    assert(r@ =~= crate::text::decimal_int(gallery@.gid) + seq![';'] + gallery@.minxres);
}

/// Failures are reported all together, each as it was noted: from one to fifty of them, and otherwise not at
/// all. The removed files are asked for by a number of seconds.
pub proof fn failures_are_reported(failures: &Vec<String>, r: Option<String>, seconds: u64, list: String)
    requires
        call_ensures(RPCClient::dl_fails, (failures,), r),
        call_ensures(RPCClient::get_purgelist, (seconds,), list),
        forall|i: int| 0 <= i < failures@.len() ==> !(#[trigger] failures@[i])@.contains(';'),
    ensures
        r is Some <==> 1 <= failures@.len() <= 50,
        r matches Some(text) ==> crate::text::split_seq(text@, ';') == crate::text::texts(failures@),
        crate::text::parse_unsigned(list@, u64::MAX as nat) == Some(seconds as nat),
{
    crate::text::lemma_parse_decimal(seconds as nat, u64::MAX as nat);
    if r is Some {
        reveal_strlit(";");
        assert(";"@ =~= seq![';']);
        let all = crate::text::texts(failures@);
        assert forall|i: int| 0 <= i < all.len() implies !(#[trigger] all[i]).contains(';') by {
            assert(all[i] == failures@[i]@);
        }
        crate::text::split_of_join(all, ';');
    }
}

/// The description of a gallery is handed on line by line, unless the server says that there is none.
pub proof fn queued_gallery_is_handed_on(body: &str, parts: Seq<Seq<char>>, r: Option<Vec<String>>)
    requires
        call_ensures(RPCClient::fetch_queue, (body,), r),
        body@ == crate::text::join_seq(parts, seq!['\n']),
        parts.len() >= 1,
        parts.last().len() > 0,
        forall|i: int| 0 <= i < parts.len() ==> crate::text::is_line(#[trigger] parts[i]),
    ensures
        r is None <==> parts[0] == "INVALID_REQUEST"@ || parts[0] == "NO_PENDING_DOWNLOADS"@,
        r matches Some(list) ==> crate::text::texts(list@) == parts,
{
    crate::text::lines_read_back(parts);
}

/// The addresses of servers are those between the semicolons of what was sent.
pub proof fn addresses_are_taken_apart(values: &Params, parts: Seq<Seq<char>>, r: Option<Vec<String>>)
    requires
        call_ensures(RPCClient::server_addresses, (values,), r),
        values@.contains_key("rpc_server_ip"@),
        values@["rpc_server_ip"@] == crate::text::join_seq(parts, seq![';']),
        parts.len() >= 1,
        forall|i: int| 0 <= i < parts.len() ==> !(#[trigger] parts[i]).contains(';'),
    ensures
        r matches Some(list) && crate::text::texts(list@) == parts,
{
    crate::text::split_of_join(parts, ';');
}

/// The client serves from the moment on at which the server agrees, and only then; it stops when it is told
/// to, and the server is told of that if it knew.
pub proof fn client_runs_when_server_agrees(
    a: &mut RPCClient,
    b: &mut RPCClient,
    reply: &ApiResponse,
    settings: &InitSettings,
    r: StartVerdict,
    told: bool,
)
    requires
        call_ensures(RPCClient::connect_check, (a, Some(reply), settings), r),
        !old(a)@.running,
        *old(b) == *final(a),
        call_ensures(RPCClient::shutdown, (b,), told),
    ensures
        r is Started <==> reply@.status == "OK"@,
        final(a)@.running <==> reply@.status == "OK"@,
        r is Started || r is Refused,
        told <==> reply@.status == "OK"@,
        !final(b)@.running,
{
}

/// Whether what the user is told of a failed test is the port and the address between three texts.
pub open spec fn advice_fits(a: Seq<char>, b: Seq<char>, c: Seq<char>) -> bool {
    forall|init: InitView| #[trigger]
        start_advice("FAIL_CONNECT_TEST"@, init) == Some(
            a + crate::text::decimal(init.port as nat) + b + init.host + c,
        )
}

/// What the user is told of a failed test names the port and the address, each in its place of a fixed text;
/// other refusals have fixed texts of their own, or none.
pub proof fn advice_names_port_and_address()
    ensures
        exists|a: Seq<char>, b: Seq<char>, c: Seq<char>| #[trigger] advice_fits(a, b, c),
        forall|x: InitView, y: InitView, status: Seq<char>|
            status != "FAIL_CONNECT_TEST"@ ==> #[trigger] start_advice(status, x) == #[trigger] start_advice(
                status,
                y,
            ),
        forall|x: InitView, status: Seq<char>| #[trigger]
            start_advice(status, x) is Some <==> status == "FAIL_CONNECT_TEST"@ || status
                == "FAIL_OTHER_CLIENT_CONNECTED"@ || status == "FAIL_CID_IN_USE"@,
{
    let a = "\n"@ + RULE@ + TEST_FAILED_1@;
    let b = TEST_FAILED_2@;
    let c = TEST_FAILED_3@ + RULE@ + "\n"@;
    assert forall|init: InitView| #[trigger] start_advice("FAIL_CONNECT_TEST"@, init) == Some(
        a + crate::text::decimal(init.port as nat) + b + init.host + c,
    ) by {
        assert(framed(
            TEST_FAILED_1@ + crate::text::decimal(init.port as nat) + TEST_FAILED_2@ + init.host
                + TEST_FAILED_3@,
        ) =~= a + crate::text::decimal(init.port as nat) + b + init.host + c);
    }
    assert(advice_fits(a, b, c));
}

/// Another server is looked for only where more than one is known; a list of one or none gives none.
pub proof fn single_server_is_not_replaced(client: &RPCClient, r: Option<Vec<String>>)
    requires
        call_ensures(RPCClient::other_servers, (client,), r),
    ensures
        r is Some <==> client@.servers.len() >= 2,
{
}

/// One to fifty failures are reported at once, with semicolons between them; none, or more, are not.
pub proof fn up_to_fifty_failures_are_reported(failures: &Vec<String>, r: Option<String>)
    requires
        call_ensures(RPCClient::dl_fails, (failures,), r),
    ensures
        r is None <==> failures@.len() == 0 || failures@.len() > 50,
        failures@.len() == 1 ==> (r matches Some(text) && text@ == failures@[0]@),
        (forall|i: int| 0 <= i < failures@.len() ==> !(#[trigger] failures@[i])@.contains(';')) && r is Some
            ==> crate::text::split_seq(r->0@, ';') == crate::text::texts(failures@),
{
    reveal_strlit(";");
    assert(";"@ =~= seq![';']);
    let list = crate::text::texts(failures@);
    assert(list.len() == failures@.len());
    if list.len() == 1 {
        assert(crate::text::join_seq(list, ";"@) == list[0]);
    }
    if list.len() >= 1 && (forall|i: int|
        0 <= i < failures@.len() ==> !(#[trigger] failures@[i])@.contains(';')) {
        assert forall|i: int| 0 <= i < list.len() implies !(#[trigger] list[i]).contains(';') by {
            assert(list[i] == failures@[i]@);
        }
        crate::text::split_of_join(list, ';');
    }
}

/// An answer is taken as one by which the server agrees if its first word is `OK`, as one that the key has
/// expired if it is `KEY_EXPIRED`, and never as both. Only what the server agreed with is handed on.
pub proof fn word_tells_the_answer(
    reply: &ApiResponse,
    ok: bool,
    expired: bool,
    data: Option<Vec<String>>,
    values: Option<Params>,
    all: Params,
)
    requires
        call_ensures(ApiResponse::is_ok, (reply,), ok),
        call_ensures(ApiResponse::is_key_expired, (reply,), expired),
        call_ensures(ApiResponse::data_if_ok, (*reply,), data),
        call_ensures(RPCClient::refresh_settings, (Some(reply),), values),
        call_ensures(ApiResponse::to_map, (reply,), all),
    ensures
        ok <==> reply@.status == seq!['O', 'K'],
        expired <==> reply@.status == seq!['K', 'E', 'Y', '_', 'E', 'X', 'P', 'I', 'R', 'E', 'D'],
        data is Some <==> ok,
        data matches Some(list) ==> crate::text::texts(list@) == reply@.data,
        values is Some <==> ok,
        values matches Some(map) ==> map@ == all@,
{
    reveal_strlit("OK");
    reveal_strlit("KEY_EXPIRED");
    assert("OK"@ =~= seq!['O', 'K']);
    assert("KEY_EXPIRED"@ =~= seq!['K', 'E', 'Y', '_', 'E', 'X', 'P', 'I', 'R', 'E', 'D']);
}

/// A client that goes to another server changes nothing but its address, and one that cannot changes nothing
/// at all; going nowhere in particular is going to the default server.
pub proof fn switch_changes_the_address_only(
    a: &mut RPCClient,
    b: &mut RPCClient,
    name: &str,
    x: bool,
    y: bool,
)
    requires
        call_ensures(RPCClient::switch_server, (a, Some(name)), x),
        call_ensures(RPCClient::switch_server, (b, None), y),
    ensures
        final(a)@ == (RpcView { base: final(a)@.base, ..old(a)@ }),
        x ==> crate::url::url_with_host(old(a)@.base, name@) == Some(final(a)@.base),
        !x ==> final(a)@ == old(a)@,
        name@ == "rpc.hentaiathome.net"@ && old(a)@ == old(b)@ ==> x == y && final(a)@ == final(b)@,
        crate::url::byte_len(old(a)@.base) + crate::url::byte_len(name@) <= 128 * 1024 * 1024 ==> (x
            <==> crate::url::url_with_host(old(a)@.base, name@) is Some),
{
}

/// A time of the server that no calendar holds tells nothing about this client's clock.
pub proof fn time_beyond_the_calendar_is_ignored(
    values: Map<Seq<char>, Seq<char>>,
    time: int,
    request_ns: int,
    now_ns: int,
)
    requires
        values.contains_key("server_time"@),
        values["server_time"@] == crate::text::decimal_int(time),
        i64::MIN <= time <= i64::MAX,
        0 <= request_ns < 4_000_000_000,
    ensures
        measured_offset(values, request_ns, now_ns) is Some <==> -8_334_601_228_800 <= time <= 8_210_266_876_799,
{
    crate::text::lemma_parse_decimal_int(time, i64::MIN as int, i64::MAX as int);
}

/// The state of the server is asked for at the client's address, by one pair and without a signature.
pub proof fn state_is_asked_for(client: &RPCClient, r: Option<String>)
    requires
        call_ensures(RPCClient::stat_url, (client,), r),
        crate::url::byte_len(client@.base) + crate::url::pairs_len(seq![("act"@, "server_stat"@)]) <= 128 * 1024
            * 1024,
    ensures
        crate::text::opt_text(r) == crate::url::url_with_pairs(client@.base, seq![("act"@, "server_stat"@)]),
{
}

/// A failure uses up one try and no more; the request is given up when none is left, and the server is changed
/// if it is at fault, both times.
pub proof fn failure_uses_one_try(state: &mut ActionState, fault: bool, r: ActionStep)
    requires
        old(state).left() > 0,
        call_ensures(ActionState::step, (state, (RequestOutcome::Failed { server_fault: fault })), r),
    ensures
        final(state).left() + 1 == old(state).left(),
        r == (ActionStep::GiveUp { change_server: fault }) <==> final(state).left() == 0,
        r == (ActionStep::Retry { change_server: fault }) <==> final(state).left() > 0,
{
}

/// A sign of life says that the client resumes, or nothing.
pub proof fn sign_of_life_tells_of_resuming(a: String, b: String)
    requires
        call_ensures(RPCClient::still_alive, (true,), a),
        call_ensures(RPCClient::still_alive, (false,), b),
    ensures
        a@ == seq!['r', 'e', 's', 'u', 'm', 'e'],
        b@.len() == 0,
{
    reveal_strlit("resume");
    reveal_strlit("");
    assert("resume"@ =~= seq!['r', 'e', 's', 'u', 'm', 'e']);
}

/// A server that refuses to tell its state, or does not answer, leaves the client as it is. The error holds
/// the word of the refusal and its lines.
pub proof fn refused_state_changes_nothing(
    client: &mut RPCClient,
    body: Option<&str>,
    request_ns: u64,
    now_secs: i64,
    now_nanos: u32,
    r: Result<Option<(i32, i32)>, Error>,
)
    requires
        call_ensures(RPCClient::check_stat, (client, body, request_ns, now_secs, now_nanos), r),
        body matches Some(text) ==> reply_of(text@).status != "OK"@,
    ensures
        final(client)@ == old(client)@,
        r matches Err(Error::ApiResponseFail { fail_code, message }) && (body matches Some(text) ==> fail_code@
            == reply_of(text@).status) && (body is None ==> fail_code@ == "CONNECTION_FAILED"@),
        r matches Err(Error::ApiResponseFail { fail_code, message }) && (body matches Some(text) ==> reply_of(
            text@,
        ).data.len() >= 1 && (forall|i: int|
            0 <= i < reply_of(text@).data.len() ==> !(#[trigger] reply_of(text@).data[i]).contains('\n'))
            ==> crate::text::split_seq(message@, '\n') == reply_of(text@).data),
{
    reveal_strlit("\n");
    assert("\n"@ =~= seq!['\n']);
    match body {
        Some(text) => {
            let data = reply_of(text@).data;
            if data.len() >= 1 && (forall|i: int| 0 <= i < data.len() ==> !(#[trigger] data[i]).contains('\n')) {
                crate::text::split_of_join(data, '\n');
            }
        },
        None => {},
    }
}

/// An answer that is empty is none: the server has not agreed by it, and nothing is known from it.
pub proof fn empty_answer_is_none(body: &str, reply: ApiResponse, ok: bool, values: Option<Params>)
    requires
        body@.len() == 0,
        call_ensures(parse_response, (body,), reply),
        call_ensures(ApiResponse::is_ok, (&reply,), ok),
        call_ensures(RPCClient::refresh_settings, (Some(&reply),), values),
    ensures
        reply@.status == "NO_RESPONSE"@,
        reply@.data.len() == 0,
        !ok && values is None,
{
    reveal_strlit("OK");
    reveal_strlit("NO_RESPONSE");
    assert(crate::text::split_seq(body@, '\n').len() == 1);
    assert(crate::text::split_seq(body@, '\n').last().len() == 0);
    assert(crate::text::lines_seq(body@).len() == 0);
    assert("OK"@.len() == 2 && "NO_RESPONSE"@.len() == 11);
}

/// The client tells its own number and secret, the servers it knows, and the limit that it was given.
pub proof fn client_tells_of_itself(
    client: &RPCClient,
    id: i32,
    key: &str,
    running: bool,
    name: &str,
    known: bool,
    settings: &Settings,
    limit: u64,
)
    requires
        call_ensures(RPCClient::id, (client,), id),
        call_ensures(RPCClient::key, (client,), key),
        call_ensures(RPCClient::is_running, (client,), running),
        call_ensures(RPCClient::is_vaild_rpc_server, (client, name), known),
        call_ensures(RPCClient::settings, (client,), settings),
        call_ensures(Settings::size_limit, (settings,), limit),
    ensures
        id == client@.id && key@ == client@.key && running == client@.running,
        known <==> exists|i: int| 0 <= i < client@.servers.len() && #[trigger] client@.servers[i] == name@,
        limit == client@.limit,
{
}

/// What the server has told a client that logs in is had again.
pub proof fn login_values_are_had(init: &InitSettings, port: u16, host: &str, verify: bool)
    requires
        call_ensures(InitSettings::client_port, (init,), port),
        call_ensures(InitSettings::client_host, (init,), host),
        call_ensures(InitSettings::verify_cache, (init,), verify),
    ensures
        port == init@.port && host@ == init@.host && verify == init@.verify_cache,
{
}

} // verus!
