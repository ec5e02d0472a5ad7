use hath::client::{
    credential_line, listen_port, purge_list, read_credential, valid_key, watch_clients, Command, OverloadNotice,
    Schedule, OVERLOAD_PAUSE, PURGE_AT_START, PURGE_LATER,
};
use hath::file_reader::{FileReader, ReadEnd, ReadResult, ReadStart};
use hath::logger::{log_line, LogLevel, LogLines, LogRoute, LoggerConfig, MAX_LINES};
use hath::metrics::{CacheFetchLabels, CacheFetchPhase};
use hath::server::cert::{CertRefused, CertStore, ParsedCert};
use hath::server::pkcs12::{file_password, is_readable};
use hath::server::ssl_stream::{outcome, ssl_code, SslCode, SslOperation, SslOutcome};
use hath::server::util::{usual_addresses, ClientAddr, ClientIp, FloodControl, TruncateBody};
use hath::server::{
    alt_svc, create_quic_config, create_ssl_config, h3_frame, h3_headers, http_options, AcceptStep, FrameStep, Server,
};

const SECOND: u64 = 1_000_000_000;

fn addr(last: u32) -> ClientAddr {
    ClientAddr { ip: ClientIp::V4(last), port: 1000 }
}

#[test]
fn tenth_quick_connection_is_refused() {
    let mut control = FloodControl::new(0);
    for i in 0..9 {
        assert!(!control.hit(addr(1), i * 1000));
    }
    assert!(control.hit(addr(1), 9000));
    assert!(!control.hit(addr(2), 9000));
    assert!(!control.hit(ClientAddr { ip: ClientIp::V6(1), port: 1000 }, 9000));
    assert!(control.hit(addr(1), 9000 + 60 * SECOND - 1));
    assert!(!control.hit(addr(1), 9000 + 60 * SECOND));
    for _ in 0..8 {
        assert!(!control.hit(addr(1), 9000 + 60 * SECOND));
    }
    assert!(control.hit(addr(1), 9000 + 60 * SECOND));
}

#[test]
fn slow_connections_are_let_in() {
    let mut control = FloodControl::new(0);
    for i in 0..100 {
        assert!(!control.hit(addr(1), i * SECOND));
    }
    // A little faster than once a second is too fast in the end.
    let mut control = FloodControl::new(0);
    let mut refused = false;
    for i in 0..100 {
        refused = refused || control.hit(addr(1), i * SECOND * 9 / 10);
    }
    assert!(refused);
}

#[test]
fn seconds_make_up_for_connections() {
    let mut control = FloodControl::new(0);
    for _ in 0..9 {
        assert!(!control.hit(addr(1), 0));
    }
    assert!(!control.hit(addr(1), 3 * SECOND));
    assert!(!control.hit(addr(1), 3 * SECOND));
    assert!(!control.hit(addr(1), 3 * SECOND));
    assert!(control.hit(addr(1), 3 * SECOND));
    assert_eq!(addr(7).ip(), ClientIp::V4(7));
}

#[test]
fn truncated_answers() {
    let mut body = TruncateBody::new("inner", 10);
    assert_eq!(*body.inner(), "inner");
    assert_eq!(body.pass(4), Some(4));
    assert_eq!(body.pass(0), Some(0));
    assert_eq!(body.pass(7), Some(6));
    assert_eq!(body.pass(1), None);
    assert_eq!(body.pass(0), None);
    let body = TruncateBody::new((), 10);
    assert_eq!(body.size_hint(20, None), (10, Some(10)));
    assert_eq!(body.size_hint(10, Some(10)), (10, Some(10)));
    assert_eq!(body.size_hint(3, Some(5)), (3, Some(5)));
    assert_eq!(body.size_hint(3, Some(50)), (3, Some(10)));
    assert_eq!(body.size_hint(3, None), (3, Some(10)));
}

#[test]
fn server_accepts_until_it_stops() {
    let mut server = Server::new(true, 0);
    for _ in 0..9 {
        assert_eq!(server.accept(addr(1), 1), AcceptStep::Serve);
    }
    assert_eq!(server.accept(addr(1), 1), AcceptStep::Refuse);
    server.shutdown();
    assert_eq!(server.accept(addr(2), 2), AcceptStep::Stop);
    let mut open = Server::new(false, 0);
    for _ in 0..50 {
        assert_eq!(open.accept(addr(1), 1), AcceptStep::Serve);
    }
}

#[test]
fn options_of_connections() {
    let http = http_options();
    assert!(!http.keep_alive);
    assert_eq!((http.max_buf_size, http.header_read_timeout, http.serve_timeout), (16384, 15, 181));
    let tls = create_ssl_config(true);
    assert!(tls.prioritize_chacha && tls.ignore_client_order && tls.tickets);
    assert!(!create_ssl_config(false).prioritize_chacha);
    let quic = create_quic_config(false);
    assert!(quic.tls.tls13_only && !quic.tls.prioritize_chacha && !quic.tls.tickets);
    assert_eq!((quic.tls.session_storage, quic.max_incoming, quic.token_lifetime), (65536, 500, 86400));
    assert_eq!(alt_svc(443), "h3=\":443\"; persist=1");
}

#[test]
fn answers_over_quic() {
    let headers = vec![
        ("connection".to_string(), "close".to_string()),
        ("etag".to_string(), "x".to_string()),
    ];
    let with_date = h3_headers(headers, "now");
    assert_eq!(with_date, vec![("etag".to_string(), "x".to_string()), ("date".to_string(), "now".to_string())]);
    assert_eq!(h3_headers(with_date.clone(), "later"), with_date);
    assert_eq!(h3_frame(Some(true)), FrameStep::Data);
    assert_eq!(h3_frame(Some(false)), FrameStep::Trailers);
    assert_eq!(h3_frame(None), FrameStep::Abort);
}

#[test]
fn tls_codes_mean_something() {
    assert_eq!(ssl_code(6), SslCode::ZeroReturn);
    assert_eq!(ssl_code(1), SslCode::Ssl);
    assert_eq!(ssl_code(5), SslCode::Syscall);
    assert_eq!(ssl_code(2), SslCode::WantRead);
    assert_eq!(ssl_code(3), SslCode::WantWrite);
    assert_eq!(ssl_code(9), SslCode::Other(9));
    assert_eq!(outcome(SslOperation::Read, 1, 5, SslCode::Other(0)), SslOutcome::Done(5));
    assert_eq!(outcome(SslOperation::Accept, 1, 5, SslCode::Other(0)), SslOutcome::Done(0));
    assert_eq!(outcome(SslOperation::Read, 0, 5, SslCode::ZeroReturn), SslOutcome::Done(0));
    assert_eq!(outcome(SslOperation::Write, -1, 0, SslCode::WantRead), SslOutcome::WouldBlock);
    assert_eq!(outcome(SslOperation::Write, -1, 0, SslCode::Syscall), SslOutcome::Failed);
    assert_eq!(outcome(SslOperation::Write, -1, 0, SslCode::Other(9)), SslOutcome::Unknown(9));
    assert_eq!(outcome(SslOperation::Accept, -1, 0, SslCode::Other(9)), SslOutcome::Done(0));
    assert_eq!(outcome(SslOperation::Shutdown, 0, 0, SslCode::Ssl), SslOutcome::Done(0));
    assert_eq!(outcome(SslOperation::Flush, 2, 0, SslCode::Ssl), SslOutcome::Failed);
}

/// A certificate for a name, and its private key.
fn certificate(name: &str) -> (Vec<u8>, Vec<u8>) {
    let rsa = openssl::rsa::Rsa::generate(2048).unwrap();
    let key = openssl::pkey::PKey::from_rsa(rsa).unwrap();
    let mut builder = openssl::x509::X509::builder().unwrap();
    builder.set_version(2).unwrap();
    builder.set_pubkey(&key).unwrap();
    let mut subject = openssl::x509::X509Name::builder().unwrap();
    subject.append_entry_by_text("CN", name).unwrap();
    let subject = subject.build();
    builder.set_subject_name(&subject).unwrap();
    builder.set_issuer_name(&subject).unwrap();
    builder.set_not_before(&openssl::asn1::Asn1Time::days_from_now(0).unwrap()).unwrap();
    builder.set_not_after(&openssl::asn1::Asn1Time::days_from_now(1).unwrap()).unwrap();
    let names = {
        let context = builder.x509v3_context(None, None);
        openssl::x509::extension::SubjectAlternativeName::new().dns(name).build(&context).unwrap()
    };
    builder.append_extension(names).unwrap();
    builder.sign(&key, openssl::hash::MessageDigest::sha256()).unwrap();
    (builder.build().to_der().unwrap(), key.private_key_to_pkcs8().unwrap())
}

#[test]
fn certificates_come_in_a_file() {
    let file = p12::PFX::new(b"certificate", b"private key", Some(b"authority"), "password", "name").unwrap().to_der();
    let cert = ParsedCert::from_p12(&file, "password").unwrap();
    assert_eq!(cert.certs(), &vec![b"certificate".to_vec(), b"authority".to_vec()]);
    assert_eq!(cert.key(), b"private key");
    assert!(ParsedCert::from_p12(&file, "wrong").is_none());
    assert!(ParsedCert::from_p12(b"nonsense", "password").is_none());
}

#[test]
fn last_key_of_a_file_is_taken() {
    let cert = ParsedCert::from_bags(Some(vec![vec![1], vec![2]]), Some(vec![vec![3]])).unwrap();
    assert_eq!(cert.key(), &vec![2]);
    assert!(ParsedCert::from_bags(Some(vec![]), Some(vec![vec![3]])).is_none());
    assert!(ParsedCert::from_bags(None, Some(vec![vec![3]])).is_none());
    assert!(ParsedCert::from_bags(Some(vec![vec![1]]), None).is_none());
}

/// A file with one piece of content.
fn file_with(content: p12::ContentInfo) -> Vec<u8> {
    p12::PFX { version: 3, auth_safe: content, mac_data: None }.to_der()
}

/// Encrypted content that asks for some rounds.
fn encrypted(iterations: u64) -> p12::ContentInfo {
    let params = p12::Pkcs12PbeParams { salt: vec![1; 8], iterations };
    p12::ContentInfo::EncryptedData(p12::EncryptedData {
        encrypted_content_info: p12::EncryptedContentInfo {
            content_encryption_algorithm: p12::AlgorithmIdentifier::PbewithSHAAnd40BitRC2CBC(params),
            encrypted_content: vec![2; 16],
        },
    })
}

/// A file whose content lists some pieces of content.
fn file_listing(pieces: &[Vec<u8>]) -> Vec<u8> {
    file_with(p12::ContentInfo::Data(sequence(pieces)))
}

fn sequence(parts: &[Vec<u8>]) -> Vec<u8> {
    let body = parts.concat();
    assert!(body.len() < 65536);
    let mut out = vec![0x30, 0x82, (body.len() / 256) as u8, (body.len() % 256) as u8];
    if body.len() < 128 {
        out = vec![0x30, body.len() as u8];
    } else if body.len() < 256 {
        out = vec![0x30, 0x81, body.len() as u8];
    }
    out.extend(body);
    out
}

#[test]
fn files_that_cannot_be_read_are_left_alone() {
    let good = p12::PFX::new(b"certificate", b"private key", None, "password", "name").unwrap().to_der();
    assert!(is_readable(&good, "password"));
    assert!(!is_readable(&good, "wrong"));
    for end in 0..good.len() {
        assert!(!is_readable(&good[..end], "password"));
    }
    // Too many rounds, in the content or in a piece of it.
    assert!(!is_readable(&file_with(encrypted(u64::MAX)), "password"));
    assert!(ParsedCert::from_p12(&file_with(encrypted(u64::MAX)), "password").is_none());
    assert!(!is_readable(&file_listing(&[encrypted(1 << 56).to_der()]), "password"));
    // Few rounds, but nothing that can be decrypted.
    assert!(!is_readable(&file_with(encrypted(1)), "password"));
    // Encrypted data of another version, or of another kind.
    let piece = encrypted(1).to_der();
    let at = |bytes: &[u8], part: &[u8]| bytes.windows(part.len()).position(|w| w == part).unwrap();
    let mut other = piece.clone();
    let version = at(&other, &[0x02, 0x01, 0x00]);
    other[version + 2] = 1;
    assert!(!is_readable(&file_listing(&[other]), "password"));
    let mut other = piece.clone();
    let kind = at(&other, &[0x86, 0x48, 0x86, 0xF7, 0x0D, 0x01, 0x07, 0x01]);
    other[kind + 7] = 2;
    assert!(ParsedCert::from_p12(&file_listing(&[other]), "password").is_none());
    // A bag of another sort whose value is said to be longer than memory.
    let oid = vec![0x06, 0x03, 0x2A, 0x03, 0x04];
    let mut value = vec![0xA0, 0x0A, 0x04, 0x88];
    value.extend([0xFF; 8]);
    let bags = sequence(&[sequence(&[oid.clone(), value])]);
    let file = file_listing(&[p12::ContentInfo::Data(bags).to_der()]);
    assert!(!is_readable(&file, "password"));
    assert!(ParsedCert::from_p12(&file, "password").is_none());
    // One with a value that can be read holds no key.
    let bags = sequence(&[sequence(&[oid, vec![0xA0, 0x03, 0x04, 0x01, 0x07]])]);
    let file = file_listing(&[p12::ContentInfo::Data(bags).to_der()]);
    assert!(is_readable(&file, "password"));
    assert!(ParsedCert::from_p12(&file, "password").is_none());
    assert!(is_readable(&file_listing(&[]), "password"));
}

#[test]
fn passwords_are_written_in_utf16() {
    assert_eq!(file_password(""), vec![0, 0]);
    assert_eq!(file_password("aB"), vec![0, 0x61, 0, 0x42, 0, 0]);
    assert_eq!(file_password("\u{20ac}\u{1f600}"), vec![0x20, 0xAC, 0xD8, 0x3D, 0xDE, 0x00, 0, 0]);
    let file = p12::PFX::new(b"certificate", b"private key", None, "\u{1f600}", "name").unwrap().to_der();
    assert!(is_readable(&file, "\u{1f600}"));
    assert!(!is_readable(&file, "\u{1f601}"));
}

#[test]
fn strict_server_checks_names() {
    let make = |key: &Vec<u8>, chain: &[&Vec<u8>]| {
        let chain = chain.iter().map(|der| der.to_vec()).collect();
        ParsedCert::from_bags(Some(vec![key.clone()]), Some(chain)).unwrap()
    };
    let (good, good_key) = certificate("good.example");
    let (other, other_key) = certificate("other.example");
    let mut strict = CertStore::open(make(&good_key, &[&good]), true).unwrap();
    assert!(strict.resolve(Some("good.example")));
    assert!(!strict.resolve(Some("bad.example")));
    assert!(!strict.resolve(Some("not a name")));
    assert!(!strict.resolve(None));
    let open = CertStore::open(make(&good_key, &[&good]), false).unwrap();
    assert!(open.resolve(Some("bad.example")));
    assert!(open.resolve(None));
    // A certificate that belongs to its key takes the place of the old one.
    assert_eq!(strict.update(make(&other_key, &[&other, &good])), Ok(()));
    assert!(strict.resolve(Some("other.example")));
    assert!(!strict.resolve(Some("good.example")));
    // Any other leaves the old one.
    assert_eq!(strict.update(make(&other_key, &[&good])), Err(CertRefused));
    assert_eq!(strict.update(make(&vec![1], &[&good])), Err(CertRefused));
    assert_eq!(strict.update(make(&good_key, &[])), Err(CertRefused));
    assert_eq!(strict.update(make(&good_key, &[&vec![0]])), Err(CertRefused));
    assert!(strict.resolve(Some("other.example")));
    assert!(!strict.resolve(Some("good.example")));
    assert_eq!(strict.update(make(&good_key, &[&good])), Ok(()));
    assert!(strict.resolve(Some("good.example")));
    // None of these can be shown from the start.
    assert_eq!(CertStore::open(make(&other_key, &[&good]), true).err(), Some(CertRefused));
    assert_eq!(CertStore::open(make(&vec![1], &[&good]), false).err(), Some(CertRefused));
    assert_eq!(CertStore::open(make(&good_key, &[]), false).err(), Some(CertRefused));
}

#[test]
fn credentials_read_back() {
    let key = "abcDEF0123456789abcd";
    assert_eq!(read_credential(Some(&credential_line(42, key))), Some((42, key.to_string())));
    assert_eq!(read_credential(Some("42-key-more")), Some((42, "key".to_string())));
    assert_eq!(read_credential(Some("42")), None);
    assert_eq!(read_credential(Some("x-key")), None);
    assert_eq!(read_credential(Some("2147483648-key")), None);
    assert_eq!(read_credential(Some(&credential_line(-5, key))), None);
    assert_eq!(read_credential(None), None);
}

#[test]
fn keys_have_twenty_letters_and_digits() {
    assert!(valid_key("abcDEF0123456789abcd"));
    assert!(!valid_key("abcDEF0123456789abc"));
    assert!(!valid_key("abcDEF0123456789abcde"));
    assert!(!valid_key("abcDEF0123456789abc_"));
    assert!(!valid_key("abcDEF0123456789abcd\n"));
    assert!(!valid_key("\u{e9}bcDEF0123456789abcd"));
}

#[test]
fn duties_come_round() {
    let mut schedule = Schedule::new();
    let mut alive = 0;
    let mut purge = Vec::new();
    for i in 0..4320 {
        let duties = schedule.tick();
        assert_eq!(duties.alive, i % 11 == 0);
        if duties.alive {
            alive += 1;
        }
        if duties.purge {
            purge.push(i);
        }
    }
    assert_eq!(alive, 393);
    assert_eq!(purge, vec![2159, 4319]);
    assert_eq!((PURGE_AT_START, PURGE_LATER), (259200, 43200));
}

#[test]
fn overload_is_told_twice_a_minute_at_most() {
    let mut notice = OverloadNotice::new();
    assert!(!notice.overload(0));
    assert!(notice.overload(5));
    assert!(!notice.overload(5));
    assert!(!notice.overload(5 + OVERLOAD_PAUSE));
    assert!(notice.overload(6 + OVERLOAD_PAUSE));
    assert!(!notice.overload(0));
}

#[test]
fn small_decisions_of_the_client() {
    assert_eq!(listen_port(Some(1), 2), 1);
    assert_eq!(listen_port(None, 2), 2);
    assert!(watch_clients(false, false));
    assert!(!watch_clients(true, false));
    assert!(!watch_clients(false, true));
    let list = vec!["nonsense".to_string(), "a9993e364706816aba3e25717850c26c9cd0d89d-3-jpg".to_string()];
    let files = purge_list(&list);
    assert_eq!(files.len(), 1);
    assert_eq!(files[0].size(), 3);
    assert_ne!(Command::ReloadCert, Command::Overload);
}

#[test]
fn lines_go_to_two_files() {
    let mut config = LoggerConfig::new();
    let mut lines = LogLines::new();
    assert_eq!(
        lines.route(LogLevel::Warn, &config),
        LogRoute { to_stderr: true, to_file: true, rotate: false, flush: false }
    );
    assert_eq!(
        lines.route(LogLevel::Info, &config),
        LogRoute { to_stderr: false, to_file: true, rotate: false, flush: false }
    );
    config.flush(true);
    assert!(lines.route(LogLevel::Debug, &config).flush);
    assert!(!lines.route(LogLevel::Error, &config).flush);
    config.write_info(false);
    assert_eq!(
        lines.route(LogLevel::Info, &config),
        LogRoute { to_stderr: false, to_file: false, rotate: false, flush: false }
    );
    assert!(lines.route(LogLevel::Error, &config).to_file);
}

#[test]
fn full_log_makes_way() {
    let config = LoggerConfig::new();
    let mut lines = LogLines::new();
    for _ in 0..MAX_LINES {
        assert!(!lines.route(LogLevel::Info, &config).rotate);
    }
    assert!(!lines.route(LogLevel::Error, &config).rotate);
    assert!(lines.route(LogLevel::Info, &config).rotate);
    for _ in 0..MAX_LINES {
        assert!(!lines.route(LogLevel::Info, &config).rotate);
    }
    assert!(lines.route(LogLevel::Info, &config).rotate);
}

#[test]
fn log_lines_are_formatted() {
    assert_eq!(log_line("now", LogLevel::Warn, "hath::x", "text"), "now [warn/hath::x] text");
    assert!(LogLevel::Debug.enabled());
    assert!(!LogLevel::Trace.enabled());
    let names: Vec<&str> = [LogLevel::Error, LogLevel::Info, LogLevel::Debug, LogLevel::Trace].iter().map(|l| l.as_str()).collect();
    assert_eq!(names, vec!["error", "info", "debug", "trace"]);
    assert_eq!(CacheFetchLabels::fetch_url().phase(), CacheFetchPhase::FetchUrl);
    assert_eq!(CacheFetchLabels::download().phase(), CacheFetchPhase::Download);
}

#[test]
fn file_is_read_once_at_a_time() {
    let mut reader = FileReader::new(64);
    assert_eq!(reader.read(), ReadStart::Start(64));
    assert_eq!(reader.read(), ReadStart::DoubleRead);
    assert_eq!(reader.poll_next(), ReadStart::DoubleRead);
    assert_eq!(reader.read_done(ReadEnd::Bytes(0)), ReadResult::Piece);
    assert_eq!(reader.read(), ReadStart::Start(64));
    assert_eq!(reader.read_done(ReadEnd::FileError), ReadResult::Error);
    assert_eq!(reader.poll_next(), ReadStart::Start(64));
    assert_eq!(reader.poll_next(), ReadStart::Wait);
    assert_eq!(reader.read(), ReadStart::DoubleRead);
    assert_eq!(reader.poll_done(ReadEnd::Bytes(9)), ReadResult::Piece);
    assert_eq!(reader.poll_next(), ReadStart::Start(64));
    assert_eq!(reader.poll_done(ReadEnd::Bytes(0)), ReadResult::EndOfFile);
    assert_eq!(reader.poll_next(), ReadStart::Start(64));
    assert_eq!(reader.poll_done(ReadEnd::Lost), ReadResult::Error);
    assert_eq!(reader.poll_next(), ReadStart::Wait);
    let mut lost = FileReader::new(64);
    lost.read();
    assert_eq!(lost.read_done(ReadEnd::Lost), ReadResult::Error);
    assert_eq!(lost.read(), ReadStart::DoubleRead);
}

#[test]
fn addresses_are_brought_to_their_usual_form() {
    let four = ClientIp::V4(0x01020304);
    assert_eq!(four.usual(), four);
    assert_eq!(ClientIp::V6(0x01020304).usual(), four);
    assert_eq!(ClientIp::V6(0xFFFF_0102_0304).usual(), four);
    assert_eq!(ClientIp::V6(1).usual(), ClientIp::V4(1));
    for other in [0xFFFE_0102_0304, 0x1_FFFF_0102_0304, 0x1_0102_0304, u128::MAX] {
        assert_eq!(ClientIp::V6(other).usual(), ClientIp::V6(other));
    }
    let read = vec![Some(ClientIp::V6(0xFFFF_0102_0304)), None, Some(ClientIp::V6(u128::MAX)), Some(four)];
    assert_eq!(usual_addresses(&read), vec![four, ClientIp::V6(u128::MAX), four]);
    assert_eq!(usual_addresses(&vec![None]), vec![]);
}

#[test]
fn logger_settings_are_chained() {
    let mut config = LoggerConfig::new();
    config.write_info(false).flush(true).write_info(true);
    let mut lines = LogLines::new();
    let route = lines.route(LogLevel::Info, &config);
    assert!(route.to_file && route.flush);
    config.flush(false);
    assert!(!lines.route(LogLevel::Info, &config).flush);
}

#[test]
fn beginning_of_an_answer_is_let_through() {
    let pieces: [&[u8]; 5] = [b"abc", b"", b"defg", b"hij", b"klm"];
    for limit in 0..20 {
        let mut body = TruncateBody::new((), limit);
        let mut seen = Vec::new();
        for piece in pieces {
            match body.pass(piece.len() as u64) {
                Some(n) => seen.extend_from_slice(&piece[..n as usize]),
                None => break,
            }
        }
        let answer = pieces.concat();
        assert_eq!(seen, answer[..answer.len().min(limit as usize)]);
    }
}

#[test]
fn pieces_of_a_file_make_up_the_file() {
    let file: Vec<u8> = (0..100).collect();
    let mut reader = FileReader::new(32);
    let mut at = 0;
    let mut seen = Vec::new();
    let mut pieces = 0;
    loop {
        let capacity = match reader.poll_next() {
            ReadStart::Start(capacity) => capacity,
            other => panic!("{other:?}"),
        };
        assert_eq!(reader.poll_next(), ReadStart::Wait);
        if pieces == 2 {
            // A read that fails loses nothing.
            assert_eq!(reader.poll_done(ReadEnd::FileError), ReadResult::Error);
            assert!(matches!(reader.poll_next(), ReadStart::Start(32)));
        }
        let n = capacity.min(file.len() - at);
        match reader.poll_done(ReadEnd::Bytes(n)) {
            ReadResult::Piece => seen.extend_from_slice(&file[at..at + n]),
            ReadResult::EndOfFile => break,
            ReadResult::Error => panic!("no error"),
        }
        at += n;
        pieces += 1;
    }
    assert_eq!(pieces, 4);
    assert_eq!(seen, file);
}

#[test]
fn others_make_no_difference() {
    let mut control = FloodControl::new(0);
    for i in 0..200 {
        assert!(!control.hit(addr(1), i * SECOND));
        for _ in 0..20 {
            control.hit(addr(2), i * SECOND + SECOND / 2);
        }
    }
    let mut control = FloodControl::new(0);
    for _ in 0..9 {
        assert!(!control.hit(addr(1), SECOND));
    }
    assert!(control.hit(addr(1), SECOND));
    for i in 2..61 {
        control.hit(addr(2), i * SECOND);
        assert!(control.hit(addr(1), i * SECOND));
    }
    control.hit(addr(2), 90 * SECOND);
    for _ in 0..9 {
        assert!(!control.hit(addr(1), 90 * SECOND));
    }
    assert!(control.hit(addr(1), 90 * SECOND));
}
