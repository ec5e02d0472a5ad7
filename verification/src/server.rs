//! The server that other people's browsers talk to.
use vstd::prelude::*;
use vstd::string::*;

use crate::middleware::remove_header;
use crate::server::util::{ClientAddr, FloodControl};
use crate::text::{push_u64, same_text};

pub mod cert;
pub mod pkcs12;
pub mod ssl_stream;
pub mod util;

verus! {

/// How connections are served.
#[derive(Clone, Copy, PartialEq, Eq, Structural, Debug)]
pub struct HttpOptions {
    pub keep_alive: bool,
    pub max_buf_size: usize,
    pub title_case_headers: bool,
    pub writev: bool,
    /// Times are in seconds.
    pub header_read_timeout: u64,
    pub handshake_timeout: u64,
    pub serve_timeout: u64,
    /// How long an answer may still take when the server stops.
    pub drain_timeout: u64,
    pub close_timeout: u64,
    pub backlog: u32,
}

/// How connections are served: one request each, in pieces that fit a TLS record.
pub fn http_options() -> (r: HttpOptions)
    ensures
        r == (HttpOptions {
            keep_alive: false,
            max_buf_size: 16384,
            title_case_headers: true,
            writev: true,
            header_read_timeout: 15,
            handshake_timeout: 10,
            serve_timeout: 181,
            drain_timeout: 10,
            close_timeout: 15,
            backlog: 512,
        }),
{
    HttpOptions {
        keep_alive: false,
        max_buf_size: 16384,
        title_case_headers: true,
        writev: true,
        header_read_timeout: 15,
        handshake_timeout: 10,
        serve_timeout: 181,
        drain_timeout: 10,
        close_timeout: 15,
        backlog: 512,
    }
}

/// How TLS connections are set up.
#[derive(Clone, Copy, PartialEq, Eq, Structural, Debug)]
pub struct TlsOptions {
    pub ignore_client_order: bool,
    /// A client that asks for ChaCha20 first gets it.
    pub prioritize_chacha: bool,
    /// Sessions that are remembered. Without any, only tickets resume a session.
    pub session_storage: usize,
    pub tickets: bool,
    pub send_tls13_tickets: usize,
    pub cert_compression_cache: usize,
    pub tls13_only: bool,
    /// How much a client may send before the handshake is over.
    pub max_early_data_size: u32,
    pub send_half_rtt_data: bool,
}

/// How TLS connections over TCP are set up.
pub fn create_ssl_config(aes_support: bool) -> (r: TlsOptions)
    ensures
        r == (TlsOptions {
            ignore_client_order: true,
            prioritize_chacha: aes_support,
            session_storage: 0,
            tickets: true,
            send_tls13_tickets: 1,
            cert_compression_cache: 2,
            tls13_only: false,
            max_early_data_size: 0,
            send_half_rtt_data: false,
        }),
{
    TlsOptions {
        ignore_client_order: true,
        prioritize_chacha: aes_support,
        session_storage: 0,
        tickets: true,
        send_tls13_tickets: 1,
        cert_compression_cache: 2,
        tls13_only: false,
        max_early_data_size: 0,
        send_half_rtt_data: false,
    }
}

/// How QUIC connections are set up, beside their TLS part.
#[derive(Clone, Copy, PartialEq, Eq, Structural, Debug)]
pub struct QuicOptions {
    pub tls: TlsOptions,
    pub send_fairness: bool,
    pub send_window: u64,
    /// Times are in seconds.
    pub max_idle_timeout: u64,
    pub token_lifetime: u64,
    pub token_log_bytes: usize,
    pub token_log_items: u64,
    pub tokens_sent: u32,
    pub max_incoming: usize,
}

/// How QUIC connections are set up. Sessions are remembered, as data before the end of the handshake
/// needs that.
pub fn create_quic_config(aes_support: bool) -> (r: QuicOptions)
    ensures
        r == (QuicOptions {
            tls: TlsOptions {
                ignore_client_order: true,
                prioritize_chacha: aes_support,
                session_storage: 65536,
                tickets: false,
                send_tls13_tickets: 1,
                cert_compression_cache: 2,
                tls13_only: true,
                max_early_data_size: u32::MAX,
                send_half_rtt_data: true,
            },
            send_fairness: false,
            send_window: 2500000,
            max_idle_timeout: 10,
            token_lifetime: 86400,
            token_log_bytes: 2097152,
            token_log_items: 65536,
            tokens_sent: 1,
            max_incoming: 500,
        }),
{
    QuicOptions {
        tls: TlsOptions {
            ignore_client_order: true,
            prioritize_chacha: aes_support,
            session_storage: 65536,
            tickets: false,
            send_tls13_tickets: 1,
            cert_compression_cache: 2,
            tls13_only: true,
            max_early_data_size: u32::MAX,
            send_half_rtt_data: true,
        },
        send_fairness: false,
        send_window: 2500000,
        max_idle_timeout: 10,
        token_lifetime: 86400,
        token_log_bytes: 2097152,
        token_log_items: 65536,
        tokens_sent: 1,
        max_incoming: 500,
    }
}

/// Where the same files can be had over QUIC.
pub fn alt_svc(port: u16) -> (r: String)
    ensures
        r@ == "h3=\":"@ + crate::text::decimal(port as nat) + "\"; persist=1"@,
{
    let mut out = "h3=\":".to_owned();
    push_u64(&mut out, port as u64);
    out.append("\"; persist=1");
    out
}

/// What becomes of a connection that was accepted.
#[derive(Clone, Copy, PartialEq, Eq, Structural, Debug)]
pub enum AcceptStep {
    /// The server stops.
    Stop,
    /// The client comes too often: the connection is cut off.
    Refuse,
    /// The client is served.
    Serve,
}

/// The state of a server that accepts connections.
pub struct Server {
    flood_control: Option<FloodControl>,
    stopped: bool,
}

impl Server {
    /// What is known of the clients, if they are watched.
    pub closed spec fn watch(&self) -> Option<crate::server::util::FloodView> {
        match self.flood_control {
            Some(control) => Some(control@),
            None => None,
        }
    }

    /// Whether the server has stopped.
    pub closed spec fn is_stopped(&self) -> bool {
        self.stopped
    }

    /// What is known of the clients is in order, and happened before a time.
    pub open spec fn as_of(&self, now: u64) -> bool {
        self.watch() matches Some(v) ==> v.wf() && v.as_of(now)
    }

    /// A server that watches its clients, or does not.
    pub fn new(flood_control: bool, now: u64) -> (r: Server)
        ensures
            !r.is_stopped(),
            r.as_of(now),
            r.watch() is Some <==> flood_control,
            r.watch() matches Some(v) ==> v == (crate::server::util::FloodView {
                last_clean: now,
                hits: Map::empty(),
                blocks: Map::empty(),
            }),
    {
        Server {
            flood_control: if flood_control {
                Some(FloodControl::new(now))
            } else {
                None
            },
            stopped: false,
        }
    }

    /// What becomes of a connection that comes now.
    pub fn accept(&mut self, addr: ClientAddr, now: u64) -> (r: AcceptStep)
        requires
            old(self).as_of(now),
            now + crate::server::util::BLOCK_TIME <= u64::MAX,
        ensures
            final(self).as_of(now),
            final(self).is_stopped() == old(self).is_stopped(),
            if old(self).is_stopped() {
                r == AcceptStep::Stop && final(self).watch() == old(self).watch()
            } else {
                match old(self).watch() {
                    Some(v) => final(self).watch() == Some(v.hit(addr.ip, now).0) && r == if v.hit(
                        addr.ip,
                        now,
                    ).1 {
                        AcceptStep::Refuse
                    } else {
                        AcceptStep::Serve
                    },
                    None => r == AcceptStep::Serve && final(self).watch() is None,
                }
            },
    {
        if self.stopped {
            return AcceptStep::Stop;
        }
        match &mut self.flood_control {
            Some(control) => {
                if control.hit(addr, now) {
                    AcceptStep::Refuse
                } else {
                    AcceptStep::Serve
                }
            },
            None => AcceptStep::Serve,
        }
    }

    /// Stops the server: no connection is accepted any more.
    pub fn shutdown(&mut self)
        ensures
            final(self).is_stopped(),
            final(self).watch() == old(self).watch(),
    {
        self.stopped = true;
    }
}

/// The headers of an answer over QUIC: no word about the connection, and a date where there is none.
pub open spec fn quic_headers(headers: Seq<(Seq<char>, Seq<char>)>, date: Seq<char>) -> Seq<
    (Seq<char>, Seq<char>),
> {
    let kept = crate::middleware::without(headers, "connection"@);
    if has_header(kept, "date"@) {
        kept
    } else {
        kept.push(("date"@, date))
    }
}

/// Whether there is a header of a name.
pub open spec fn has_header(headers: Seq<(Seq<char>, Seq<char>)>, name: Seq<char>) -> bool {
    exists|i: int| 0 <= i < headers.len() && (#[trigger] headers[i]).0 == name
}

/// The headers of an answer over QUIC.
pub fn h3_headers(headers: Vec<(String, String)>, date: &str) -> (r: Vec<(String, String)>)
    ensures
        crate::url::pair_texts(r@) == quic_headers(crate::url::pair_texts(headers@), date@),
{
    let mut kept = remove_header(headers, "connection");
    let ghost pairs = crate::url::pair_texts(kept@);
    for i in 0..kept.len()
        invariant
            pairs == crate::url::pair_texts(kept@),
            pairs == crate::middleware::without(crate::url::pair_texts(headers@), "connection"@),
            forall|j: int| 0 <= j < i ==> (#[trigger] pairs[j]).0 != "date"@,
    {
        assert(pairs[i as int].0 == kept@[i as int].0@);
        if same_text(kept[i].0.as_str(), "date") {
            return kept;
        }
    }
    let ghost before = kept@;
    kept.push(("date".to_owned(), date.to_owned()));
    assert(crate::url::pair_texts(kept@) =~= pairs.push(("date"@, date@)));
    kept
}

/// What is sent over QUIC for a part of an answer.
#[derive(Clone, Copy, PartialEq, Eq, Structural, Debug)]
pub enum FrameStep {
    /// The data.
    Data,
    /// What follows the data.
    Trailers,
    /// The answer is broken off.
    Abort,
}

/// What is sent over QUIC for a part of an answer, `None` if it could not be had.
pub fn h3_frame(is_data: Option<bool>) -> (r: FrameStep)
    ensures
        r == match is_data {
            Some(true) => FrameStep::Data,
            Some(false) => FrameStep::Trailers,
            None => FrameStep::Abort,
        },
{
    match is_data {
        Some(data) => {
            if data {
                FrameStep::Data
            } else {
                FrameStep::Trailers
            }
        },
        None => FrameStep::Abort,
    }
}

/// Removing the headers of a name leaves none of that name.
pub proof fn without_leaves_none(headers: Seq<(Seq<char>, Seq<char>)>, name: Seq<char>)
    ensures
        !has_header(crate::middleware::without(headers, name), name),
    decreases headers.len(),
{
    if headers.len() > 0 {
        without_leaves_none(headers.drop_last(), name);
        let before = crate::middleware::without(headers.drop_last(), name);
        let after = crate::middleware::without(headers, name);
        if has_header(after, name) {
            let i = choose|i: int| 0 <= i < after.len() && (#[trigger] after[i]).0 == name;
            assert(i < before.len() ==> before[i].0 == name);
        }
    }
}

/// An answer over QUIC says nothing about the connection, and has a date.
pub proof fn quic_answer_is_proper(headers: Seq<(Seq<char>, Seq<char>)>, date: Seq<char>)
    ensures
        !has_header(quic_headers(headers, date), "connection"@),
        has_header(quic_headers(headers, date), "date"@),
{
    let kept = crate::middleware::without(headers, "connection"@);
    let r = quic_headers(headers, date);
    without_leaves_none(headers, "connection"@);
    if !has_header(kept, "date"@) {
        assert(r[r.len() - 1].0 == "date"@);
        assert("date"@ != "connection"@) by {
            reveal_strlit("date");
            reveal_strlit("connection");
        }
        if has_header(r, "connection"@) {
            let i = choose|i: int| 0 <= i < r.len() && (#[trigger] r[i]).0 == "connection"@;
            assert(kept[i].0 == "connection"@);
        }
    }
}

/// An answer over QUIC keeps all its headers, if none is about the connection, and a date among them; where no
/// date is, the given one is told.
pub proof fn quic_keeps_other_headers(headers: Vec<(String, String)>, date: &str, r: Vec<(String, String)>)
    requires
        call_ensures(h3_headers, (headers, date), r),
        !has_header(crate::url::pair_texts(headers@), "connection"@),
    ensures
        has_header(crate::url::pair_texts(headers@), "date"@) ==> crate::url::pair_texts(r@)
            == crate::url::pair_texts(headers@),
        !has_header(crate::url::pair_texts(headers@), "date"@) ==> crate::url::pair_texts(r@)
            == crate::url::pair_texts(headers@).push(("date"@, date@)),
{
    lemma_nothing_removed(crate::url::pair_texts(headers@), "connection"@);
}

proof fn lemma_nothing_removed(headers: Seq<(Seq<char>, Seq<char>)>, name: Seq<char>)
    requires
        forall|i: int| 0 <= i < headers.len() ==> (#[trigger] headers[i]).0 != name,
    ensures
        crate::middleware::without(headers, name) == headers,
    decreases headers.len(),
{
    if headers.len() > 0 {
        let short = headers.drop_last();
        assert forall|i: int| 0 <= i < short.len() implies (#[trigger] short[i]).0 != name by {
            assert(short[i] == headers[i]);
        }
        lemma_nothing_removed(short, name);
        assert(headers[headers.len() - 1].0 != name);
        assert(short.push(headers.last()) =~= headers);
    } else {
        assert(crate::middleware::without(headers, name) =~= headers);
    }
}

/// A server that has stopped accepts nobody; one that does not watch its clients serves everybody; and one that
/// does refuses exactly those who come too often.
pub proof fn server_refuses_as_it_watches(
    s: &mut Server,
    t: &mut Server,
    addr: ClientAddr,
    now: u64,
    r: AcceptStep,
    late: AcceptStep,
    u: &mut Server,
)
    requires
        call_ensures(Server::accept, (s, addr, now), r),
        *old(t) == *final(s),
        call_ensures(Server::shutdown, (t,), ()),
        *old(u) == *final(t),
        call_ensures(Server::accept, (u, addr, now), late),
    ensures
        old(s).is_stopped() <==> r == AcceptStep::Stop,
        !old(s).is_stopped() && old(s).watch() is None ==> r == AcceptStep::Serve,
        r == AcceptStep::Refuse ==> (old(s).watch() matches Some(v) && v.hit(addr.ip, now).1),
        !old(s).is_stopped() && (old(s).watch() matches Some(v) && v.hit(addr.ip, now).1) ==> r
            == AcceptStep::Refuse,
        late == AcceptStep::Stop,
{
}

/// Where the same files can be had over QUIC is told by the port, between two fixed texts.
pub proof fn quic_is_told_by_port(a: u16, b: u16, x: String, y: String)
    requires
        call_ensures(alt_svc, (a,), x),
        call_ensures(alt_svc, (b,), y),
    ensures
        x@ == seq!['h', '3', '=', '"', ':'] + crate::text::decimal(a as nat) + seq!['"', ';', ' '] + "persist=1"@,
        x@ == y@ ==> a == b,
{
    reveal_strlit("h3=\":");
    reveal_strlit("\"; persist=1");
    reveal_strlit("persist=1");
    assert(x@ =~= seq!['h', '3', '=', '"', ':'] + crate::text::decimal(a as nat) + seq!['"', ';', ' ']
        + "persist=1"@);
    crate::text::middle_is_told(
        "h3=\":"@,
        crate::text::decimal(a as nat),
        crate::text::decimal(b as nat),
        "\"; persist=1"@,
    );
    crate::text::numbers_are_written_once(a as nat, b as nat, 0);
}

/// A part of an answer that could not be had breaks the answer off, and nothing else does.
pub proof fn lost_part_breaks_off(is_data: Option<bool>, r: FrameStep)
    requires
        call_ensures(h3_frame, (is_data,), r),
    ensures
        r == FrameStep::Abort <==> is_data is None,
        r == FrameStep::Data <==> is_data == Some(true),
{
}

/// A connection over TCP serves one request, in pieces of sixteen kilobytes, and is given its time for each
/// step; the whole of an answer may take three minutes and a second.
pub proof fn connection_is_given_its_time(r: HttpOptions)
    requires
        call_ensures(http_options, (), r),
    ensures
        !r.keep_alive && r.title_case_headers && r.writev,
        r.max_buf_size == 16 * 1024,
        r.header_read_timeout == 15 && r.close_timeout == 15,
        r.handshake_timeout == 10 && r.drain_timeout == 10,
        r.serve_timeout == 3 * 60 + 1,
        r.backlog == 512,
{
}

/// Connections over TCP and over QUIC are set up alike in the order of ciphers and in what is kept of
/// certificates. Only QUIC takes data before the handshake is over, and remembers sessions for it; only TCP
/// gives tickets that hold a session.
pub proof fn both_ways_are_set_up_alike(aes: bool, tcp: TlsOptions, quic: QuicOptions)
    requires
        call_ensures(create_ssl_config, (aes,), tcp),
        call_ensures(create_quic_config, (aes,), quic),
    ensures
        tcp.ignore_client_order && quic.tls.ignore_client_order,
        tcp.prioritize_chacha == aes && quic.tls.prioritize_chacha == aes,
        tcp.cert_compression_cache == 2 && quic.tls.cert_compression_cache == 2,
        tcp.send_tls13_tickets == 1 && quic.tls.send_tls13_tickets == 1,
        tcp.tickets && !quic.tls.tickets,
        tcp.session_storage == 0 && quic.tls.session_storage == 64 * 1024,
        tcp.max_early_data_size == 0 && quic.tls.max_early_data_size == 0xFFFF_FFFF,
        !tcp.send_half_rtt_data && quic.tls.send_half_rtt_data,
        !tcp.tls13_only && quic.tls.tls13_only,
        !quic.send_fairness && quic.send_window == 2_500_000 && quic.max_idle_timeout == 10,
        quic.token_lifetime == 24 * 60 * 60 && quic.tokens_sent == 1 && quic.max_incoming == 500,
        quic.token_log_bytes == 2 * 1024 * 1024 && quic.token_log_items == 64 * 1024,
{
}

/// A new server is not stopped, and watches its clients if it is told to: the first who comes is served.
pub proof fn first_client_is_served(
    flood: bool,
    now: u64,
    start: Server,
    s: &mut Server,
    addr: ClientAddr,
    r: AcceptStep,
)
    requires
        call_ensures(Server::new, (flood, now), start),
        *old(s) == start,
        call_ensures(Server::accept, (s, addr, now), r),
    ensures
        !start.is_stopped(),
        flood <==> start.watch() is Some,
        r == AcceptStep::Serve,
{
    if flood {
        let v = start.watch()->0;
        assert(v.cleaned(now).hits =~= Map::empty());
        assert(v.cleaned(now).blocks =~= Map::empty());
    }
}

} // verus!
