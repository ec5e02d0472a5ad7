//! Requests to the server over connections that are opened ahead of time.
use vstd::prelude::*;
use vstd::string::*;

use crate::error::Error;
use crate::text::{push_u64, same_text};
use crate::url::{url_host_str, url_port_number, url_scheme_text};
use crate::util::CLIENT_VERSION;

verus! {

/// A server by its host and its port. The port of a URL that names none is the usual one.
pub open spec fn server_key(host: Seq<char>, port: Option<u16>, scheme: Option<Seq<char>>) -> Seq<char> {
    host + ":"@ + crate::text::decimal(
        match port {
            Some(port) => port as nat,
            None => if scheme == Some("https"@) {
                443
            } else {
                80
            },
        },
    )
}

/// The server that a URL leads to, `None` if the URL has no host.
pub open spec fn server_of_url(url: Seq<char>) -> Option<Seq<char>> {
    match crate::url::url_host(url) {
        Some(host) => Some(server_key(host, crate::url::url_port(url), crate::url::url_scheme(url))),
        None => None,
    }
}

/// A server by its host and its port.
pub fn server_name(host: &str, port: Option<u16>, scheme: &Option<String>) -> (r: String)
    ensures
        r@ == server_key(host@, port, crate::text::opt_text(*scheme)),
{
    let mut out = host.to_owned();
    out.append(":");
    let number: u16 = match port {
        Some(port) => port,
        None => {
            let secure = match scheme {
                Some(scheme) => same_text(scheme.as_str(), "https"),
                None => false,
            };
            if secure {
                443
            } else {
                80
            }
        },
    };
    push_u64(&mut out, number as u64);
    out
}

/// The server that a URL leads to.
pub fn server_of(url: &str) -> (r: Option<String>)
    ensures
        crate::text::opt_text(r) == server_of_url(url@),
{
    match url_host_str(url) {
        Some(host) => {
            let port = url_port_number(url);
            let scheme = url_scheme_text(url);
            Some(server_name(host.as_str(), port, &scheme))
        },
        None => None,
    }
}

/// What is known of the connection that was opened ahead of time.
#[derive(Debug)]
pub struct RPCHttpClient {
    preconnect: Option<String>,
}

/// What to do about a connection that is opened ahead of time.
#[derive(Clone, Copy, PartialEq, Eq, Structural, Debug)]
pub enum Preconnect {
    /// There is one already.
    Connected,
    /// One is being opened.
    Connecting,
    /// Open one.
    Open,
}

impl RPCHttpClient {
    /// The server of the connection that was opened ahead of time.
    pub closed spec fn open_to(&self) -> Option<Seq<char>> {
        crate::text::opt_text(self.preconnect)
    }

    /// No connection is open.
    pub fn new() -> (r: RPCHttpClient)
        ensures
            r.open_to() is None,
    {
        RPCHttpClient { preconnect: None }
    }

    /// A request goes to a server: whether it can use the connection that was opened ahead of time.
    /// Whatever the answer, that connection is gone afterwards.
    pub fn get(&mut self, server: &str) -> (r: bool)
        ensures
            r == (old(self).open_to() == Some(server@)),
            final(self).open_to() is None,
    {
        let r = match &self.preconnect {
            Some(key) => same_text(key.as_str(), server),
            None => false,
        };
        self.preconnect = None;
        r
    }

    /// Whether to open a connection ahead of time.
    pub fn preconnect(&self, connecting: bool) -> (r: Preconnect)
        ensures
            r == if self.open_to() is Some {
                Preconnect::Connected
            } else if connecting {
                Preconnect::Connecting
            } else {
                Preconnect::Open
            },
    {
        if self.preconnect.is_some() {
            Preconnect::Connected
        } else if connecting {
            Preconnect::Connecting
        } else {
            Preconnect::Open
        }
    }

    /// A connection to a server was opened.
    pub fn connected(&mut self, server: &str)
        ensures
            final(self).open_to() == Some(server@),
    {
        self.preconnect = Some(server.to_owned());
    }
}

/// Whether a connection that was opened ahead of time still works: it takes data now, or later.
pub fn still_works(writable: bool, would_block: bool) -> (r: bool)
    ensures
        r == (writable || would_block),
{
    writable || would_block
}

/// How this client introduces itself.
pub fn user_agent() -> (r: String)
    ensures
        r@ == "Hentai@Home "@ + CLIENT_VERSION@,
{
    let mut out = "Hentai@Home ".to_owned();
    out.append(CLIENT_VERSION);
    out
}

/// The headers of a request, `None` if its URL has no host.
pub fn build_request(url: &str) -> (r: Option<Vec<(String, String)>>)
    ensures
        match r {
            Some(headers) => crate::url::url_host(url@) matches Some(host) && crate::url::pair_texts(
                headers@,
            ) == seq![("Host"@, host), ("User-Agent"@, "Hentai@Home "@ + CLIENT_VERSION@)],
            None => crate::url::url_host(url@) is None,
        },
{
    match url_host_str(url) {
        Some(host) => {
            let mut headers: Vec<(String, String)> = Vec::new();
            headers.push(("Host".to_owned(), host));
            headers.push(("User-Agent".to_owned(), user_agent()));
            assert(crate::url::pair_texts(headers@) =~= seq![
                ("Host"@, host@),
                ("User-Agent"@, "Hentai@Home "@ + CLIENT_VERSION@),
            ]);
            Some(headers)
        },
        None => None,
    }
}

/// Whether an answer is one: a status that blames the client or the server is an error. The text of
/// the answer goes with it where it is a text.
pub fn check_status(status: u16, body: Option<String>) -> (r: Result<(), Error>)
    ensures
        match r {
            Ok(_) => !(400 <= status < 600),
            Err(e) => 400 <= status < 600 && (e matches Error::ServerError { status: s, body: b } && s
                == status && crate::text::opt_text(b) == crate::text::opt_text(body)),
        },
{
    if 400 <= status && status < 600 {
        Err(Error::ServerError { status, body })
    } else {
        Ok(())
    }
}

/// A server is told by its host and its port: without a port it is the usual one of the scheme, which is 443
/// for a secure one and 80 for any other; and servers with different ports are different.
pub proof fn server_is_told_by_port(host: Seq<char>, port: u16, other: u16, scheme: Option<Seq<char>>)
    ensures
        server_key(host, Some(port), scheme) == host + seq![':'] + crate::text::decimal(port as nat),
        server_key(host, None, Some("https"@)) == server_key(host, Some(443), scheme),
        scheme != Some("https"@) ==> server_key(host, None, scheme) == server_key(host, Some(80), scheme),
        server_key(host, Some(port), scheme) == server_key(host, Some(other), scheme) ==> port == other,
{
    reveal_strlit(":");
    assert(":"@ =~= seq![':']);
    let a = crate::text::decimal(port as nat);
    let b = crate::text::decimal(other as nat);
    assert(host + seq![':'] + a =~= host + seq![':'] + a + Seq::empty());
    assert(host + seq![':'] + b =~= host + seq![':'] + b + Seq::empty());
    crate::text::middle_is_told(host + seq![':'], a, b, Seq::empty());
    crate::text::numbers_are_written_once(port as nat, other as nat, 0);
}

/// A connection that was opened ahead of time is used once, and only for the server it was opened to.
pub proof fn connection_is_used_once(
    start: RPCHttpClient,
    a: &mut RPCHttpClient,
    b: &mut RPCHttpClient,
    c: &mut RPCHttpClient,
    server: &str,
    wanted: &str,
    x: bool,
    y: bool,
    plan: (Preconnect, Preconnect),
)
    requires
        call_ensures(RPCHttpClient::new, (), start),
        call_ensures(RPCHttpClient::preconnect, (&start, false), plan.0),
        *old(a) == start,
        call_ensures(RPCHttpClient::connected, (a, server), ()),
        call_ensures(RPCHttpClient::preconnect, (final(a), false), plan.1),
        *old(b) == *final(a),
        call_ensures(RPCHttpClient::get, (b, wanted), x),
        *old(c) == *final(b),
        call_ensures(RPCHttpClient::get, (c, wanted), y),
    ensures
        x <==> wanted@ == server@,
        !y,
        plan.0 == Preconnect::Open,
        plan.1 == Preconnect::Connected,
{
}

/// An answer is an error exactly where its status is one of the four or five hundreds; the error tells it.
pub proof fn bad_status_is_an_error(status: u16, body: Option<String>, r: Result<(), Error>)
    requires
        call_ensures(check_status, (status, body), r),
    ensures
        r is Err <==> status / 100 == 4 || status / 100 == 5,
        r matches Err(Error::ServerError { status: told, body: text }) ==> told == status
            && crate::text::opt_text(text) == crate::text::opt_text(body),
        r is Ok || (r matches Err(Error::ServerError { status: told, body: text })),
{
}

/// A request names the host of its URL and this client with its version.
pub proof fn request_names_host(url: &str, r: Option<Vec<(String, String)>>)
    requires
        call_ensures(build_request, (url,), r),
    ensures
        r is Some <==> crate::url::url_host(url@) is Some,
        r matches Some(headers) ==> {
            let pairs = crate::url::pair_texts(headers@);
            &&& crate::route::says(pairs, "Host"@, crate::url::url_host(url@)->0)
            &&& crate::route::says(pairs, "User-Agent"@, "Hentai@Home 1.6.4"@)
        },
{
    reveal_strlit("Host");
    reveal_strlit("User-Agent");
    reveal_strlit("Hentai@Home ");
    reveal_strlit("1.6.4");
    reveal_strlit("Hentai@Home 1.6.4");
    assert("Hentai@Home "@ + CLIENT_VERSION@ =~= "Hentai@Home 1.6.4"@);
    if r is Some {
        let pairs = crate::url::pair_texts(r->0@);
        assert(pairs[0].0 == "Host"@);
        assert(pairs[1].0 == "User-Agent"@);
        assert("Host"@.len() == 4 && "User-Agent"@.len() == 10);
    }
}

/// A request names the host of its URL, and this client; one whose URL has no host is not made.
pub proof fn request_names_host_and_client(url: &str, name: String, r: Option<Vec<(String, String)>>)
    requires
        call_ensures(user_agent, (), name),
        call_ensures(build_request, (url,), r),
    ensures
        name@.len() >= 12 && name@.take(12) == seq!['H', 'e', 'n', 't', 'a', 'i', '@', 'H', 'o', 'm', 'e', ' '],
        r is Some <==> crate::url::url_host(url@) is Some,
        r matches Some(headers) ==> crate::url::pair_texts(headers@) == seq![
            ("Host"@, crate::url::url_host(url@)->0),
            ("User-Agent"@, name@),
        ],
{
    reveal_strlit("Hentai@Home ");
    assert(name@.take(12) =~= "Hentai@Home "@);
}

/// An answer that blames this client or the server is an error that tells its status and its text; every other
/// one is taken.
pub proof fn blame_is_an_error(status: u16, body: Option<String>, r: Result<(), Error>)
    requires
        call_ensures(check_status, (status, body), r),
    ensures
        r is Err <==> status / 100 == 4 || status / 100 == 5,
        r matches Err(e) ==> (e matches Error::ServerError { status: s, body: b } && s == status
            && crate::text::opt_text(b) == crate::text::opt_text(body)),
{
}

/// The server of a URL is named by its host and port; two URLs with the same ones have the same server, and a
/// URL without a host has none.
pub proof fn server_of_address(
    url: &str,
    port: u16,
    host: &str,
    scheme: Option<String>,
    name: String,
    r: Option<String>,
)
    requires
        call_ensures(server_of, (url,), r),
        call_ensures(server_name, (host, Some(port), &scheme), name),
    ensures
        r is Some <==> crate::url::url_host(url@) is Some,
        crate::url::url_host(url@) == Some(host@) && crate::url::url_port(url@) == Some(port) ==> (r matches Some(
            found,
        ) && found@ == name@),
        name@ == host@ + seq![':'] + crate::text::decimal(port as nat),
{
    server_is_told_by_port(host@, port, port, crate::text::opt_text(scheme));
    server_is_told_by_port(host@, port, port, crate::url::url_scheme(url@));
}

/// A connection works while it can be written to, or would make the writer wait.
pub proof fn waiting_connection_works(r: bool, s: bool, t: bool, u: bool)
    requires
        call_ensures(still_works, (true, false), r),
        call_ensures(still_works, (false, true), s),
        call_ensures(still_works, (true, true), t),
        call_ensures(still_works, (false, false), u),
    ensures
        r && s && t && !u,
{
}

} // verus!
