use hath::digest::{same_bytes, same_hash, DIGEST_LIMIT};
use hath::error::Error;
use hath::params::Params;
use hath::text::{
    chars_of, eq_ignore_ascii_case, i64_text, join, lines, parse_i64, parse_u64, push_padded, same_text,
    split, splitn, starts_with, string_of, u64_text,
};
use hath::util::{aes_support, ssl_provider, string_to_hash, CipherSuite, CLIENT_VERSION};

#[test]
fn split_keeps_empty_pieces() {
    assert_eq!(split("a--b-", '-'), vec!["a", "", "b", ""]);
    assert_eq!(split("", '-'), vec![""]);
    assert_eq!(join(&split("a--b-", '-'), "-"), "a--b-");
}

#[test]
fn splitn_leaves_the_rest_together() {
    assert_eq!(splitn("TITLE a b c", ' ', 2), vec!["TITLE", "a b c"]);
    assert_eq!(splitn("TITLE", ' ', 2), vec!["TITLE"]);
    assert_eq!(splitn("a b c", ' ', 1), vec!["a b c"]);
}

#[test]
fn lines_end_as_the_standard_library_says() {
    for text in ["", "a", "a\n", "a\r\nb\n\nc\r", "\n\n", "a\rb\r\n", "\r\n"] {
        let expected: Vec<&str> = text.lines().collect();
        assert_eq!(lines(text), expected);
    }
}

#[test]
fn numbers_read_as_the_standard_library_says() {
    for text in ["", "+", "-", "0", "+7", "-7", "007", "1a", "18446744073709551615", "18446744073709551616", "--1", "+-1", " 1"] {
        assert_eq!(parse_u64(text, u64::MAX), text.parse::<u64>().ok());
        assert_eq!(parse_i64(text, i64::MIN, i64::MAX), text.parse::<i64>().ok());
        assert_eq!(parse_u64(text, 65535).map(|v| v as u16), text.parse::<u16>().ok());
    }
    assert_eq!(parse_i64("-9223372036854775808", i64::MIN, i64::MAX), Some(i64::MIN));
    assert_eq!(parse_i64("9223372036854775808", i64::MIN, i64::MAX), None);
}

#[test]
fn numbers_read_back() {
    for n in [0, 1, 9, 10, 4294967295, u64::MAX] {
        assert_eq!(u64_text(n), n.to_string());
        assert_eq!(parse_u64(&u64_text(n), u64::MAX), Some(n));
    }
    for n in [0, -1, i64::MIN, i64::MAX] {
        assert_eq!(i64_text(n), n.to_string());
        assert_eq!(parse_i64(&i64_text(n), i64::MIN, i64::MAX), Some(n));
    }
}

#[test]
fn small_text_helpers() {
    assert!(same_text("abc", "abc"));
    assert!(!same_text("abc", "abd"));
    assert!(starts_with("abcdef", "abc"));
    assert!(!starts_with("ab", "abc"));
    assert!(eq_ignore_ascii_case("0aFf", "0AfF"));
    assert!(!eq_ignore_ascii_case("0aff", "0afe"));
    let chars = chars_of("h\u{e9}llo");
    assert_eq!(string_of(&chars, 1, 3), "\u{e9}l");
    let mut out = String::from("<");
    push_padded(&mut out, "ab", 5);
    out.push('>');
    assert_eq!(out, "<ab   >");
    let mut long = String::new();
    push_padded(&mut long, "abcdef", 5);
    assert_eq!(long, "abcdef");
}

#[test]
fn texts_are_signed_with_sha1() {
    assert_eq!(string_to_hash("abc".to_string()), "a9993e364706816aba3e25717850c26c9cd0d89d");
    assert_eq!(string_to_hash(String::new()), "da39a3ee5e6b4b0d3255bfef95601890afd80709");
}

#[test]
fn digests_are_compared_byte_by_byte() {
    let a = [7u8; 20];
    let mut b = a;
    assert!(same_hash(&a, &b));
    b[19] = 8;
    assert!(!same_hash(&a, &b));
    assert!(same_bytes(&[1, 2], &[1, 2]));
    assert!(!same_bytes(&[1, 2], &[1, 2, 3]));
    assert!(DIGEST_LIMIT > u32::MAX as u64);
}

#[test]
fn chacha_comes_first_without_acceleration() {
    let with = ssl_provider(true);
    let without = ssl_provider(false);
    assert_eq!(with[0], CipherSuite::Tls13Aes128);
    assert_eq!(without[0], CipherSuite::Tls13ChaCha20);
    assert_eq!(without[3], CipherSuite::EcdsaChaCha20);
    assert_eq!(without[6], CipherSuite::RsaChaCha20);
    assert_eq!(with.len(), 9);
    for suite in &with {
        assert_eq!(without.iter().filter(|s| *s == suite).count(), 1);
    }
    assert_eq!(CLIENT_VERSION, "1.6.4");
    assert!(aes_support(Some(true)));
    assert!(!aes_support(Some(false)));
    assert!(!aes_support(None));
}

#[test]
fn params_keep_the_last_value() {
    let mut params = Params::new();
    assert_eq!(params.get("a"), None);
    params.insert("a".to_string(), "1".to_string());
    params.insert("a".to_string(), "2".to_string());
    assert_eq!(params.get("a"), Some("2"));
    assert_eq!(params.get_or_empty("b"), "");
}

#[test]
fn errors_tell_what_went_wrong() {
    assert_eq!(Error::CertExpired.message(), "Cert expired");
    assert_eq!(Error::VersionTooOld.message(), "Your client is too old to connect to the Hentai@Home Network.");
    assert_eq!(Error::connection_error("down").message(), "Code=CONNECTION_FAILED, Message=down");
    assert_eq!(Error::ConnectTestFail.message(), "Connect test failed");
    assert_eq!(Error::InitSettingsMissing("port".to_string()).message(), "Missing init settings: port");
    let mut actual = [0u8; 20];
    actual[0] = 255;
    assert_eq!(
        Error::HashMismatch { expected: [1; 20], actual }.message(),
        format!("Hash missmatch. Expected={:?}, Actual={:?}", [1u8; 20], actual)
    );
    assert_eq!(
        Error::ServerError { status: 503, body: Some("busy".to_string()) }.message(),
        "Server error. Status=503, Body=busy"
    );
    assert_eq!(Error::ServerError { status: 404, body: None }.message(), "Server error. Status=404, Body=");
}
