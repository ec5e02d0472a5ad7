//! The lines that are logged of each request.
use vstd::prelude::*;
use vstd::string::*;

use crate::text::{parse_u64, push_padded, push_u64, u64_text};

verus! {

/// What was asked: the method, the path with its query, and the version.
pub open spec fn request_text(
    method: Seq<char>,
    path: Seq<char>,
    query: Option<Seq<char>>,
    version: Seq<char>,
) -> Seq<char> {
    match query {
        Some(query) => method + " "@ + path + "?"@ + query + " "@ + version,
        None => method + " "@ + path + " "@ + version,
    }
}

/// What was asked: the method, the path with its query, and the version.
pub fn request_line(method: &str, path: &str, query: Option<&str>, version: &str) -> (r: String)
    ensures
        r@ == request_text(method@, path@, crate::text::opt_str(query), version@),
{
    let mut out = method.to_owned();
    out.append(" ");
    out.append(path);
    match query {
        Some(query) => {
            out.append("?");
            out.append(query);
        },
        None => {},
    }
    out.append(" ");
    out.append(version);
    out
}

/// The bytes of an answer, as its head tells: none for a request of the head alone, and none where
/// the head does not tell.
pub fn body_size(is_head: bool, content_length: Option<&str>) -> (r: u64)
    ensures
        r == match content_length {
            Some(text) if !is_head => match crate::text::parse_unsigned(text@, u64::MAX as nat) {
                Some(n) => n as u64,
                None => 0,
            },
            _ => 0,
        },
{
    if is_head {
        return 0;
    }
    match content_length {
        Some(text) => match parse_u64(text, u64::MAX) {
            Some(n) => n,
            None => 0,
        },
        None => 0,
    }
}

/// Who asked, and what was answered.
pub open spec fn access_text(count: nat, ip: Seq<char>, code: nat, size: nat, rest: Seq<char>) -> Seq<char> {
    "{"@ + crate::text::decimal(count) + "/"@ + crate::text::padded(ip + "}"@, 16) + " Code="@
        + crate::text::decimal(code) + " Byte="@ + crate::text::padded(crate::text::decimal(size), 8)
        + " "@ + rest
}

/// A line about a request: its number, who asked, what was answered, and the rest.
pub fn access_line(count: u64, ip: &str, code: u16, size: u64, rest: &str) -> (r: String)
    ensures
        r@ == access_text(count as nat, ip@, code as nat, size as nat, rest@),
{
    let mut who = ip.to_owned();
    who.append("}");
    let mut out = "{".to_owned();
    push_u64(&mut out, count);
    out.append("/");
    push_padded(&mut out, who.as_str(), 16);
    out.append(" Code=");
    push_u64(&mut out, code as u64);
    out.append(" Byte=");
    push_padded(&mut out, u64_text(size).as_str(), 8);
    out.append(" ");
    out.append(rest);
    out
}

/// The line of a request, taken apart at its spaces: the method, the path with its query behind a question
/// mark, and the version.
pub proof fn request_line_reads_back(method: &str, path: &str, query: &str, version: &str, r: String, s: String)
    requires
        call_ensures(request_line, (method, path, Some(query), version), r),
        call_ensures(request_line, (method, path, None, version), s),
        !method@.contains(' ') && !path@.contains(' ') && !query@.contains(' ') && !version@.contains(' '),
    ensures
        crate::text::split_seq(r@, ' ') == seq![method@, path@ + seq!['?'] + query@, version@],
        crate::text::split_seq(s@, ' ') == seq![method@, path@, version@],
{
    reveal_strlit(" ");
    reveal_strlit("?");
    let middle = path@ + seq!['?'] + query@;
    assert(!middle.contains(' ')) by {
        assert forall|i: int| 0 <= i < middle.len() implies middle[i] != ' ' by {
            if i < path@.len() {
                assert(path@.contains(path@[i]));
            } else if i > path@.len() {
                assert(query@.contains(query@[i - path@.len() - 1]));
            }
        }
    }
    let a = seq![method@, middle, version@];
    let b = seq![method@, path@, version@];
    assert forall|i: int| 0 <= i < a.len() implies !(#[trigger] a[i]).contains(' ') by {}
    assert forall|i: int| 0 <= i < b.len() implies !(#[trigger] b[i]).contains(' ') by {}
    crate::text::split_of_join(a, ' ');
    crate::text::split_of_join(b, ' ');
    reveal_with_fuel(crate::text::join_seq, 4);
    assert(a.drop_last() =~= seq![method@, middle]);
    assert(a.drop_last().drop_last() =~= seq![method@]);
    assert(b.drop_last() =~= seq![method@, path@]);
    assert(b.drop_last().drop_last() =~= seq![method@]);
    assert(r@ =~= crate::text::join_seq(a, seq![' ']));
    assert(s@ =~= crate::text::join_seq(b, seq![' ']));
}

/// The bytes of an answer are those that its head tells; an answer to a request for the head has none.
pub proof fn told_length_is_logged(n: u64, text: &str, r: u64, head: u64, none: u64)
    requires
        text@ == crate::text::decimal(n as nat),
        call_ensures(body_size, (false, Some(text)), r),
        call_ensures(body_size, (true, Some(text)), head),
        call_ensures(body_size, (false, None), none),
    ensures
        r == n,
        head == 0,
        none == 0,
{
    crate::text::lemma_parse_decimal(n as nat, u64::MAX as nat);
}

/// The line of an answer begins with its number and who has asked, and ends with the rest; the status and the
/// size stand between them. Short addresses and sizes are filled up, so that lines stand below each other.
pub proof fn access_line_tells_answer(count: u64, ip: &str, code: u16, size: u64, rest: &str, r: String)
    requires
        call_ensures(access_line, (count, ip, code, size, rest), r),
    ensures
        (seq!['{'] + crate::text::decimal(count as nat) + seq!['/'] + ip@ + seq!['}']).is_prefix_of(r@),
        exists|who: Seq<char>, much: Seq<char>|
            who.len() == (if ip@.len() + 1 < 16 {
                16
            } else {
                ip@.len() + 1
            }) && (ip@ + seq!['}']).is_prefix_of(who) && crate::text::decimal(size as nat).is_prefix_of(much)
                && much.len() >= 8 && r@ == #[trigger] access_parts(
                count as nat,
                who,
                code as nat,
                much,
                rest@,
            ),
{
    reveal_strlit("{");
    reveal_strlit("/");
    reveal_strlit("}");
    reveal_strlit(" Code=");
    reveal_strlit(" Byte=");
    reveal_strlit(" ");
    let who = crate::text::padded(ip@ + "}"@, 16);
    let much = crate::text::padded(crate::text::decimal(size as nat), 8);
    assert("}"@ =~= seq!['}']);
    crate::text::padding_is_spaces(ip@ + "}"@, 16);
    crate::text::padding_is_spaces(crate::text::decimal(size as nat), 8);
    assert(r@ =~= access_parts(count as nat, who, code as nat, much, rest@));
    let start = seq!['{'] + crate::text::decimal(count as nat) + seq!['/'] + ip@ + seq!['}'];
    assert(who.subrange(0, (ip@ + seq!['}']).len() as int) == ip@ + seq!['}']);
    assert forall|i: int| 0 <= i < start.len() implies r@[i] == start[i] by {
        let k = 2 + crate::text::decimal(count as nat).len();
        if i >= k {
            assert(who.subrange(0, (ip@ + seq!['}']).len() as int)[i - k] == (ip@ + seq!['}'])[i - k]);
        }
    }
    assert(r@.subrange(0, start.len() as int) =~= start);
}

/// The line of an answer: its number, who has asked, the status, the size and the rest.
pub open spec fn access_parts(count: nat, who: Seq<char>, code: nat, much: Seq<char>, rest: Seq<char>) -> Seq<char> {
    seq!['{'] + crate::text::decimal(count) + seq!['/'] + who + seq![' ', 'C', 'o', 'd', 'e', '=']
        + crate::text::decimal(code) + seq![' ', 'B', 'y', 't', 'e', '='] + much + seq![' '] + rest
}

} // verus!
