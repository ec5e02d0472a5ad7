//! What this client answers to requests.
use vstd::prelude::*;
use vstd::string::*;

use crate::params::Params;
use crate::text::split;

pub mod cache;
pub mod speed_test;

verus! {

/// The status and the headers of an answer.
#[derive(Debug)]
pub struct ResponseHead {
    pub status: u16,
    pub headers: Vec<(String, String)>,
}

impl ResponseHead {
    /// The texts of the headers.
    pub open spec fn pairs(&self) -> Seq<(Seq<char>, Seq<char>)> {
        crate::url::pair_texts(self.headers@)
    }

    /// A status without headers.
    pub fn new(status: u16) -> (r: ResponseHead)
        ensures
            r.status == status,
            r.pairs() == Seq::<(Seq<char>, Seq<char>)>::empty(),
    {
        let r = ResponseHead { status, headers: Vec::new() };
        assert(r.pairs() =~= Seq::empty());
        r
    }

    /// Adds a header.
    pub fn header(&mut self, name: &str, value: &str)
        ensures
            final(self).status == old(self).status,
            final(self).pairs() == old(self).pairs().push((name@, value@)),
    {
        let ghost before = self.headers@;
        self.headers.push((name.to_owned(), value.to_owned()));
        assert(self.pairs() =~= old(self).pairs().push((name@, value@)));
    }
}

/// An answer that is known as a whole.
#[derive(Debug)]
pub struct FixedResponse {
    pub head: ResponseHead,
    pub body: String,
}

/// The media type of a page.
pub const HTML: &'static str = "text/html; charset=utf-8";

/// The media type of a text.
pub const PLAIN: &'static str = "text/plain; charset=utf-8";

fn fixed(status: u16, name: &str, value: &str, body: &str) -> (r: FixedResponse)
    ensures
        r.head.status == status,
        r.head.pairs() == seq![(name@, value@)],
        r.body@ == body@,
{
    let mut head = ResponseHead::new(status);
    head.header(name, value);
    assert(head.pairs() =~= seq![(name@, value@)]);
    FixedResponse { head, body: body.to_owned() }
}

/// The answer to a request for something that is not served here.
pub fn default() -> (r: FixedResponse)
    ensures
        r.head.status == 404,
        r.head.pairs() == seq![("content-type"@, HTML@)],
        r.body@ == "An error has occurred. (404)"@,
{
    fixed(404, "content-type", HTML, "An error has occurred. (404)")
}

/// The icon is elsewhere.
pub fn favicon() -> (r: FixedResponse)
    ensures
        r.head.status == 301,
        r.head.pairs() == seq![("location"@, "https://e-hentai.org/favicon.ico"@)],
        r.body@ == ""@,
{
    fixed(301, "location", "https://e-hentai.org/favicon.ico", "")
}

/// Nothing is to be indexed.
pub fn robots() -> (r: FixedResponse)
    ensures
        r.head.status == 200,
        r.head.pairs() == seq![("content-type"@, PLAIN@)],
        r.body@ == "User-agent: *\nDisallow: /"@,
{
    fixed(200, "content-type", PLAIN, "User-agent: *\nDisallow: /")
}

/// The media type of the measurements.
pub const OPENMETRICS: &'static str = "application/openmetrics-text; version=1.0.0; charset=utf-8";

/// The answer with the measurements of this client.
pub fn metrics(text: &str) -> (r: FixedResponse)
    ensures
        r.head.status == 200,
        r.head.pairs() == seq![("content-type"@, OPENMETRICS@)],
        r.body@ == text@,
{
    fixed(200, "content-type", OPENMETRICS, text)
}

/// The answer to a request without a valid key.
pub fn forbidden() -> (r: FixedResponse)
    ensures
        r.head.status == 403,
        r.head.pairs() == seq![("content-type"@, HTML@)],
        r.body@ == "An error has occurred. (403)"@,
{
    fixed(403, "content-type", HTML, "An error has occurred. (403)")
}

/// The answer to a request for a file that cannot be had.
pub fn not_found() -> (r: FixedResponse)
    ensures
        r.head.status == 404,
        r.head.pairs() == seq![("content-type"@, PLAIN@)],
        r.body@ == "An error has occurred. (404)"@,
{
    fixed(404, "content-type", PLAIN, "An error has occurred. (404)")
}

/// The named values of a request: pairs with semicolons between them. What follows a second equals
/// sign is ignored, and so is a piece without one. A later pair wins.
pub open spec fn request_values(pieces: Seq<Seq<char>>) -> Map<Seq<char>, Seq<char>>
    decreases pieces.len(),
{
    if pieces.len() == 0 {
        Map::empty()
    } else {
        let before = request_values(pieces.drop_last());
        let pair = crate::text::split_seq(pieces.last(), '=');
        if pair.len() >= 2 {
            before.insert(pair[0], pair[1])
        } else {
            before
        }
    }
}

/// Reads the named values of a request.
pub fn parse_additional(additional: &str) -> (r: Params)
    ensures
        r@ == request_values(crate::text::split_seq(additional@, ';')),
{
    let pieces = split(additional, ';');
    let ghost all = crate::text::split_seq(additional@, ';');
    assert(crate::text::texts(pieces@).len() == pieces@.len());
    let mut map = Params::new();
    for i in 0..pieces.len()
        invariant
            all == crate::text::texts(pieces@),
            map@ == request_values(all.take(i as int)),
    {
        assert(all.take(i + 1).drop_last() =~= all.take(i as int));
        assert(all.take(i + 1).last() == pieces@[i as int]@);
        let mut pair = split(pieces[i].as_str(), '=');
        let ghost parts = crate::text::split_seq(all[i as int], '=');
        assert(crate::text::texts(pair@).len() == pair@.len());
        if pair.len() >= 2 {
            assert(parts[0] == pair@[0]@ && parts[1] == pair@[1]@);
            let value = pair.remove(1);
            let name = pair.remove(0);
            map.insert(name, value);
        }
    }
    assert(all.take(all.len() as int) =~= all);
    map
}

/// Whether a head says this of a name, and nothing else.
pub open spec fn says(pairs: Seq<(Seq<char>, Seq<char>)>, name: Seq<char>, value: Seq<char>) -> bool {
    pairs.contains((name, value)) && forall|i: int|
        0 <= i < pairs.len() && (#[trigger] pairs[i]).0 == name ==> pairs[i].1 == value
}

/// Whether a head says nothing of a name.
pub open spec fn silent(pairs: Seq<(Seq<char>, Seq<char>)>, name: Seq<char>) -> bool {
    forall|i: int| 0 <= i < pairs.len() ==> (#[trigger] pairs[i]).0 != name
}

/// The value of a name is that of the last pair that begins with the name and an equals sign.
pub proof fn last_pair_gives_value(pieces: Seq<Seq<char>>, i: int, name: Seq<char>, value: Seq<char>)
    requires
        0 <= i < pieces.len(),
        !name.contains('='),
        !value.contains('='),
        pieces[i] == name + seq!['='] + value,
        forall|j: int| i < j < pieces.len() ==> !name.push('=').is_prefix_of(#[trigger] pieces[j]),
    ensures
        request_values(pieces).contains_key(name),
        request_values(pieces)[name] == value,
    decreases pieces.len(),
{
    let pair = crate::text::split_seq(pieces.last(), '=');
    if i == pieces.len() - 1 {
        crate::text::split_of_pair(name, value, '=');
    } else {
        assert(pieces.drop_last()[i] == pieces[i]);
        assert forall|j: int| i < j < pieces.drop_last().len() implies !name.push('=').is_prefix_of(
            #[trigger] pieces.drop_last()[j],
        ) by {
            assert(pieces.drop_last()[j] == pieces[j]);
        }
        last_pair_gives_value(pieces.drop_last(), i, name, value);
        assert(!name.push('=').is_prefix_of(pieces[pieces.len() - 1]));
        if pair.len() >= 2 && pair[0] == name {
            crate::text::join_begins_with_first(pair, '=');
            crate::text::join_of_split(pieces.last(), '=');
        }
    }
}

/// A name has no value where no pair begins with it and an equals sign.
pub proof fn no_pair_gives_no_value(pieces: Seq<Seq<char>>, name: Seq<char>)
    requires
        forall|j: int| 0 <= j < pieces.len() ==> !name.push('=').is_prefix_of(#[trigger] pieces[j]),
    ensures
        !request_values(pieces).contains_key(name),
    decreases pieces.len(),
{
    if pieces.len() > 0 {
        assert forall|j: int| 0 <= j < pieces.drop_last().len() implies !name.push('=').is_prefix_of(
            #[trigger] pieces.drop_last()[j],
        ) by {
            assert(pieces.drop_last()[j] == pieces[j]);
        }
        no_pair_gives_no_value(pieces.drop_last(), name);
        let pair = crate::text::split_seq(pieces.last(), '=');
        assert(!name.push('=').is_prefix_of(pieces[pieces.len() - 1]));
        if pair.len() >= 2 && pair[0] == name {
            crate::text::join_begins_with_first(pair, '=');
            crate::text::join_of_split(pieces.last(), '=');
        }
    }
}

/// The values of a request are those of its pieces between semicolons.
pub proof fn request_reads_back(
    additional: &str,
    pieces: Seq<Seq<char>>,
    r: Params,
    i: int,
    name: Seq<char>,
    value: Seq<char>,
)
    requires
        call_ensures(parse_additional, (additional,), r),
        additional@ == crate::text::join_seq(pieces, seq![';']),
        forall|j: int| 0 <= j < pieces.len() ==> !(#[trigger] pieces[j]).contains(';'),
        0 <= i < pieces.len(),
        !name.contains('='),
        !value.contains('='),
        pieces[i] == name + seq!['='] + value,
        forall|j: int| i < j < pieces.len() ==> !name.push('=').is_prefix_of(#[trigger] pieces[j]),
    ensures
        r@.contains_key(name),
        r@[name] == value,
{
    crate::text::split_of_join(pieces, ';');
    last_pair_gives_value(pieces, i, name, value);
}

/// The fixed answers: nothing is found where nothing is served, nobody gets in without a key, the icon is
/// elsewhere, and nothing is to be indexed.
pub proof fn fixed_answers(a: FixedResponse, b: FixedResponse, c: FixedResponse, d: FixedResponse, e: FixedResponse)
    requires
        call_ensures(default, (), a),
        call_ensures(not_found, (), b),
        call_ensures(forbidden, (), c),
        call_ensures(favicon, (), d),
        call_ensures(robots, (), e),
    ensures
        a.head.status == 404 && b.head.status == 404 && c.head.status == 403 && d.head.status == 301
            && e.head.status == 200,
        says(d.head.pairs(), "location"@, "https://e-hentai.org/favicon.ico"@),
        says(a.head.pairs(), "content-type"@, "text/html; charset=utf-8"@),
        says(e.head.pairs(), "content-type"@, "text/plain; charset=utf-8"@),
        e.body@ == "User-agent: *\nDisallow: /"@,
{
    assert(d.head.pairs()[0].0 == "location"@);
    assert(a.head.pairs()[0].0 == "content-type"@);
    assert(e.head.pairs()[0].0 == "content-type"@);
}

/// The measurements are answered as they are.
pub proof fn measurements_are_answered(text: &str, r: FixedResponse)
    requires
        call_ensures(metrics, (text,), r),
    ensures
        r.head.status == 200,
        r.body@ == text@,
        says(
            r.head.pairs(),
            "content-type"@,
            "application/openmetrics-text; version=1.0.0; charset=utf-8"@,
        ),
{
    assert(r.head.pairs()[0].0 == "content-type"@);
}

/// An answer that refuses says so in words: as plain text where a file cannot be had, and as a page elsewhere.
pub proof fn refusals_say_so(a: FixedResponse, b: FixedResponse, c: FixedResponse)
    requires
        call_ensures(default, (), a),
        call_ensures(not_found, (), b),
        call_ensures(forbidden, (), c),
    ensures
        a.body@ == b.body@ && a.body@ == "An error has occurred. (404)"@,
        c.body@ == "An error has occurred. (403)"@,
        says(b.head.pairs(), "content-type"@, "text/plain; charset=utf-8"@),
        says(c.head.pairs(), "content-type"@, "text/html; charset=utf-8"@),
{
    assert(b.head.pairs()[0].0 == "content-type"@);
    assert(c.head.pairs()[0].0 == "content-type"@);
}

} // verus!
