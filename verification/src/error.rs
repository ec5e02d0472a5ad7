//! What can go wrong between this client and the server.
use vstd::prelude::*;
use vstd::string::*;

use crate::text::push_u64;

verus! {

#[derive(Debug)]
pub enum Error {
    CertExpired,
    VersionTooOld,
    ApiResponseFail { fail_code: String, message: String },
    ConnectTestFail,
    InitSettingsMissing(String),
    HashMismatch { expected: [u8; 20], actual: [u8; 20] },
    ServerError { status: u16, body: Option<String> },
}

/// A row of bytes as numbers: `[1, 2, 3]`.
pub open spec fn byte_list(bytes: Seq<u8>) -> Seq<char> {
    seq!['['] + byte_items(bytes) + seq![']']
}

/// The numbers of a row of bytes, with a comma and a space between them.
pub open spec fn byte_items(bytes: Seq<u8>) -> Seq<char>
    decreases bytes.len(),
{
    if bytes.len() == 0 {
        Seq::empty()
    } else if bytes.len() == 1 {
        crate::text::decimal(bytes[0] as nat)
    } else {
        byte_items(bytes.drop_last()) + ", "@ + crate::text::decimal(bytes.last() as nat)
    }
}

fn push_byte_list(out: &mut String, bytes: &[u8; 20])
    ensures
        final(out)@ == old(out)@ + byte_list(bytes@),
{
    let ghost before = out@;
    out.push('[');
    for i in 0usize..20
        invariant
            out@ == before + seq!['['] + byte_items(bytes@.take(i as int)),
    {
        if i > 0 {
            out.append(", ");
        }
        push_u64(out, bytes[i] as u64);
        assert(bytes@.take(i + 1).drop_last() =~= bytes@.take(i as int));
        if i == 0 {
            assert(bytes@.take(0) =~= Seq::empty());
        }
        assert(out@ =~= before + seq!['['] + byte_items(bytes@.take(i + 1)));
    }
    out.push(']');
    assert(bytes@.take(20) =~= bytes@);
    assert(out@ =~= before + byte_list(bytes@));
}

impl Error {
    /// What a person is told about the error.
    pub open spec fn text(&self) -> Seq<char> {
        match self {
            Error::CertExpired => "Cert expired"@,
            Error::VersionTooOld => "Your client is too old to connect to the Hentai@Home Network."@,
            Error::ApiResponseFail { fail_code, message } => "Code="@ + fail_code@ + ", Message="@
                + message@,
            Error::ConnectTestFail => "Connect test failed"@,
            Error::InitSettingsMissing(settings) => "Missing init settings: "@ + settings@,
            Error::HashMismatch { expected, actual } => "Hash missmatch. Expected="@ + byte_list(
                expected@,
            ) + ", Actual="@ + byte_list(actual@),
            Error::ServerError { status, body } => "Server error. Status="@ + crate::text::decimal(*status as nat)
                + ", Body="@ + (match body {
                Some(text) => text@,
                None => Seq::empty(),
            }),
        }
    }

    /// The server could not be reached.
    pub fn connection_error(message: &str) -> (r: Error)
        ensures
            r matches Error::ApiResponseFail { fail_code, message: m } && fail_code@
                == "CONNECTION_FAILED"@ && m@ == message@,
    {
        Error::ApiResponseFail {
            fail_code: "CONNECTION_FAILED".to_owned(),
            message: message.to_owned(),
        }
    }

    /// What a person is told about the error.
    pub fn message(&self) -> (r: String)
        ensures
            r@ == self.text(),
    {
        let mut out = String::new();
        match self {
            Error::CertExpired => {
                out.append("Cert expired");
            },
            Error::VersionTooOld => {
                out.append("Your client is too old to connect to the Hentai@Home Network.");
            },
            Error::ApiResponseFail { fail_code, message } => {
                out.append("Code=");
                out.append(fail_code.as_str());
                out.append(", Message=");
                out.append(message.as_str());
            },
            Error::ConnectTestFail => {
                out.append("Connect test failed");
            },
            Error::InitSettingsMissing(settings) => {
                out.append("Missing init settings: ");
                out.append(settings.as_str());
            },
            Error::HashMismatch { expected, actual } => {
                out.append("Hash missmatch. Expected=");
                push_byte_list(&mut out, expected);
                out.append(", Actual=");
                push_byte_list(&mut out, actual);
            },
            Error::ServerError { status, body } => {
                out.append("Server error. Status=");
                push_u64(&mut out, *status as u64);
                out.append(", Body=");
                match body {
                    Some(text) => {
                        out.append(text.as_str());
                    },
                    None => {},
                }
            },
        }
        assert(out@ =~= self.text());
        out
    }
}

/// What a person is told of an error tells the kinds of errors apart and gives what is known of each: the code
/// and the message, the setting that is missing, the two digests, the status and the answer.
pub proof fn error_tells_what_is_known(
    code: String,
    message: String,
    name: String,
    status: u16,
    body: String,
    r: (String, String, String),
)
    requires
        call_ensures(Error::message, (&Error::ApiResponseFail { fail_code: code, message },), r.0),
        call_ensures(Error::message, (&Error::InitSettingsMissing(name),), r.1),
        call_ensures(Error::message, (&Error::ServerError { status, body: Some(body) },), r.2),
    ensures
        r.0@ == seq!['C', 'o', 'd', 'e', '='] + code@ + ", Message="@ + message@,
        r.1@.len() >= name@.len() && r.1@.skip(r.1@.len() - name@.len()) == name@,
        r.2@ == "Server error. Status="@ + crate::text::decimal(status as nat) + ", Body="@ + body@,
{
    reveal_strlit("Code=");
    reveal_strlit("Missing init settings: ");
    assert("Code="@ =~= seq!['C', 'o', 'd', 'e', '=']);
    assert(r.1@.skip(r.1@.len() - name@.len()) =~= name@);
}

proof fn lemma_items_joined(bytes: Seq<u8>)
    requires
        bytes.len() > 0,
    ensures
        byte_items(bytes) == crate::text::join_seq(
            bytes.map_values(|b: u8| crate::text::decimal(b as nat)),
            ", "@,
        ),
    decreases bytes.len(),
{
    let all = bytes.map_values(|b: u8| crate::text::decimal(b as nat));
    if bytes.len() > 1 {
        lemma_items_joined(bytes.drop_last());
        assert(all.drop_last() =~= bytes.drop_last().map_values(|b: u8| crate::text::decimal(b as nat)));
    }
}

/// A digest is told as its bytes in decimal numbers, with a comma and a space between them, in brackets.
pub proof fn digest_is_told_in_numbers(bytes: Seq<u8>)
    requires
        bytes.len() > 0,
    ensures
        byte_list(bytes) == seq!['['] + crate::text::join_seq(
            bytes.map_values(|b: u8| crate::text::decimal(b as nat)),
            ", "@,
        ) + seq![']'],
{
    lemma_items_joined(bytes);
}

/// The errors that need no more words are told in these.
pub proof fn short_errors_are_told(r: (String, String, String), lost: Error, message: &str)
    requires
        call_ensures(Error::message, (&Error::CertExpired,), r.0),
        call_ensures(Error::message, (&Error::VersionTooOld,), r.1),
        call_ensures(Error::message, (&Error::ConnectTestFail,), r.2),
        call_ensures(Error::connection_error, (message,), lost),
    ensures
        r.0@ == "Cert expired"@,
        r.1@ == "Your client is too old to connect to the Hentai@Home Network."@,
        r.2@ == "Connect test failed"@,
        lost matches Error::ApiResponseFail { fail_code, message: m } && fail_code@ == "CONNECTION_FAILED"@ && m@
            == message@,
{
}

/// A digest that does not fit is told together with the one that was expected, the expected one first.
pub proof fn wrong_digest_is_told(expected: [u8; 20], actual: [u8; 20], r: String)
    requires
        call_ensures(Error::message, (&Error::HashMismatch { expected, actual },), r),
    ensures
        r@ == "Hash missmatch. Expected="@ + byte_list(expected@) + ", Actual="@ + byte_list(actual@),
{
}

} // verus!
