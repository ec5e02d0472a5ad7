//! What happens to every request and every answer.
use vstd::prelude::*;
use vstd::string::*;

use crate::route::ResponseHead;
use crate::text::same_text;
use crate::util::CLIENT_VERSION;

pub mod connection_counter;
pub mod logger;

verus! {

/// The name of this server.
pub open spec fn server_name() -> Seq<char> {
    "Genetic Lifeform and Distributed Open Server "@ + CLIENT_VERSION@
}

/// Headers without those of a name.
pub open spec fn without(headers: Seq<(Seq<char>, Seq<char>)>, name: Seq<char>) -> Seq<
    (Seq<char>, Seq<char>),
>
    decreases headers.len(),
{
    if headers.len() == 0 {
        Seq::empty()
    } else {
        let before = without(headers.drop_last(), name);
        if headers.last().0 == name {
            before
        } else {
            before.push(headers.last())
        }
    }
}

/// Headers without those of a name.
pub fn remove_header(headers: Vec<(String, String)>, name: &str) -> (r: Vec<(String, String)>)
    ensures
        crate::url::pair_texts(r@) == without(crate::url::pair_texts(headers@), name@),
{
    let mut out: Vec<(String, String)> = Vec::new();
    let ghost all = crate::url::pair_texts(headers@);
    for i in 0..headers.len()
        invariant
            all == crate::url::pair_texts(headers@),
            crate::url::pair_texts(out@) == without(all.take(i as int), name@),
    {
        assert(all.take(i + 1).drop_last() =~= all.take(i as int));
        assert(all[i as int] == (headers@[i as int].0@, headers@[i as int].1@));
        if !same_text(headers[i].0.as_str(), name) {
            let ghost before = out@;
            out.push((headers[i].0.clone(), headers[i].1.clone()));
            assert(crate::url::pair_texts(out@) =~= crate::url::pair_texts(before).push(all[i as int]));
        }
    }
    assert(all.take(all.len() as int) =~= all);
    out
}

/// The headers that every answer has: the name of the server, and that the connection ends. They
/// take the place of others of the same name.
pub open spec fn with_default_headers(headers: Seq<(Seq<char>, Seq<char>)>) -> Seq<
    (Seq<char>, Seq<char>),
> {
    without(without(headers, "server"@), "connection"@).push(("server"@, server_name())).push(
        ("connection"@, "close"@),
    )
}

/// Gives an answer the headers that every answer has.
pub fn default_headers(response: ResponseHead) -> (r: ResponseHead)
    ensures
        r.status == response.status,
        r.pairs() == with_default_headers(response.pairs()),
{
    let headers = remove_header(response.headers, "server");
    let headers = remove_header(headers, "connection");
    let mut name = "Genetic Lifeform and Distributed Open Server ".to_owned();
    name.append(CLIENT_VERSION);
    let mut head = ResponseHead { status: response.status, headers };
    head.header("server", name.as_str());
    head.header("connection", "close");
    head
}

/// Removing the headers of a name keeps all others in order: those of two rows are those of each, and a single
/// header stays exactly where it has another name.
pub proof fn others_are_kept(
    a: Seq<(Seq<char>, Seq<char>)>,
    b: Seq<(Seq<char>, Seq<char>)>,
    header: (Seq<char>, Seq<char>),
    name: Seq<char>,
)
    ensures
        without(a + b, name) == without(a, name) + without(b, name),
        header.0 != name ==> without(seq![header], name) == seq![header],
        header.0 == name ==> without(seq![header], name).len() == 0,
    decreases b.len(),
{
    assert(seq![header].drop_last() =~= Seq::empty());
    assert(without(Seq::empty(), name) =~= Seq::<(Seq<char>, Seq<char>)>::empty());
    if header.0 != name {
        assert(without(seq![header], name) =~= seq![header]);
    }
    if b.len() == 0 {
        assert(a + b =~= a);
        assert(without(a, name) + without(b, name) =~= without(a, name));
    } else {
        others_are_kept(a, b.drop_last(), header, name);
        assert((a + b).drop_last() =~= a + b.drop_last());
        assert(without(a + b, name) =~= without(a, name) + without(b, name));
    }
}

proof fn lemma_kept(headers: Seq<(Seq<char>, Seq<char>)>, name: Seq<char>, header: (Seq<char>, Seq<char>))
    ensures
        without(headers, name).contains(header) <==> headers.contains(header) && header.0 != name,
    decreases headers.len(),
{
    if headers.len() > 0 {
        let before = without(headers.drop_last(), name);
        let after = without(headers, name);
        lemma_kept(headers.drop_last(), name, header);
        assert(headers =~= headers.drop_last().push(headers.last()));
        if after.contains(header) {
            let i = after.index_of(header);
            if i < before.len() {
                assert(before[i] == header);
                let k = headers.drop_last().index_of(header);
                assert(headers[k] == header);
            } else {
                assert(headers[headers.len() - 1] == header);
            }
        }
        if headers.contains(header) && header.0 != name {
            let k = headers.index_of(header);
            if k < headers.len() - 1 {
                assert(headers.drop_last()[k] == header);
                let i = before.index_of(header);
                assert(after[i] == header);
            } else {
                assert(after[after.len() - 1] == header);
            }
        }
    }
}

/// Every answer names this server and says that the connection ends, once each and whatever it said before;
/// its status and all its other headers stay as they were.
pub proof fn every_answer_names_the_server(response: ResponseHead, r: ResponseHead, header: (Seq<char>, Seq<char>))
    requires
        call_ensures(default_headers, (response,), r),
    ensures
        r.status == response.status,
        crate::route::says(r.pairs(), "server"@, "Genetic Lifeform and Distributed Open Server 1.6.4"@),
        crate::route::says(r.pairs(), "connection"@, "close"@),
        header.0 != "server"@ && header.0 != "connection"@ ==> (r.pairs().contains(header)
            <==> response.pairs().contains(header)),
{
    reveal_strlit("server");
    reveal_strlit("connection");
    reveal_strlit("Genetic Lifeform and Distributed Open Server ");
    reveal_strlit("1.6.4");
    reveal_strlit("Genetic Lifeform and Distributed Open Server 1.6.4");
    assert(server_name() =~= "Genetic Lifeform and Distributed Open Server 1.6.4"@);
    assert("server"@.len() == 6 && "connection"@.len() == 10);
    let first = without(response.pairs(), "server"@);
    let kept = without(first, "connection"@);
    let pairs = r.pairs();
    let n = kept.len() as int;
    assert(pairs[n] == ("server"@, server_name()));
    assert(pairs[n + 1] == ("connection"@, "close"@));
    assert forall|i: int| 0 <= i < n implies (#[trigger] kept[i]).0 != "server"@ && kept[i].0 != "connection"@ by {
        assert(kept.contains(kept[i]));
        lemma_kept(first, "connection"@, kept[i]);
        lemma_kept(response.pairs(), "server"@, kept[i]);
    }
    assert forall|i: int| 0 <= i < pairs.len() && (#[trigger] pairs[i]).0 == "server"@ implies pairs[i].1
        == server_name() by {
        if i < n {
            assert(pairs[i] == kept[i]);
        }
    }
    assert forall|i: int| 0 <= i < pairs.len() && (#[trigger] pairs[i]).0 == "connection"@ implies pairs[i].1
        == "close"@ by {
        if i < n {
            assert(pairs[i] == kept[i]);
        }
    }
    lemma_kept(first, "connection"@, header);
    lemma_kept(response.pairs(), "server"@, header);
    if header.0 != "server"@ && header.0 != "connection"@ {
        if pairs.contains(header) {
            let i = pairs.index_of(header);
            assert(kept[i] == header);
        }
        if kept.contains(header) {
            let i = kept.index_of(header);
            assert(pairs[i] == header);
        }
    }
}

/// Headers of a name are removed wherever they stand, and no other one is: what is left of two rows is what is
/// left of each, one after the other.
pub proof fn headers_are_removed_by_name(
    a: Seq<(Seq<char>, Seq<char>)>,
    b: Seq<(Seq<char>, Seq<char>)>,
    header: (Seq<char>, Seq<char>),
    name: Seq<char>,
)
    ensures
        without(a + b, name) == without(a, name) + without(b, name),
        header.0 == name ==> without(seq![header], name).len() == 0,
        header.0 != name ==> without(seq![header], name) == seq![header],
    decreases b.len(),
{
    assert(seq![header].drop_last() =~= Seq::empty());
    assert(without(Seq::empty(), name) =~= Seq::empty());
    assert(without(seq![header], name) =~= if header.0 == name {
        Seq::empty()
    } else {
        seq![header]
    });
    if b.len() == 0 {
        assert(a + b =~= a);
        assert(without(a, name) + without(b, name) =~= without(a, name));
    } else {
        headers_are_removed_by_name(a, b.drop_last(), header, name);
        assert((a + b).drop_last() =~= a + b.drop_last());
        assert(without(a + b, name) =~= without(a, name) + without(b, name));
    }
}

/// A header that is removed is gone, and all that stood around it stay.
pub proof fn removed_header_is_gone(
    headers: Vec<(String, String)>,
    name: &str,
    r: Vec<(String, String)>,
    before: Seq<(Seq<char>, Seq<char>)>,
    value: Seq<char>,
    after: Seq<(Seq<char>, Seq<char>)>,
)
    requires
        call_ensures(remove_header, (headers, name), r),
        crate::url::pair_texts(headers@) == before + seq![(name@, value)] + after,
    ensures
        crate::url::pair_texts(r@) == without(before, name@) + without(after, name@),
{
    headers_are_removed_by_name(before + seq![(name@, value)], after, (name@, value), name@);
    headers_are_removed_by_name(before, seq![(name@, value)], (name@, value), name@);
    assert(without(before, name@) + without(seq![(name@, value)], name@) =~= without(before, name@));
}

} // verus!
