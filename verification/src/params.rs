//! Named values, as the server sends them and as a request carries them.
use vstd::hash_map::StringHashMap;
use vstd::prelude::*;

verus! {

/// A table from names to values.
pub struct Params {
    m: StringHashMap<String>,
}

impl View for Params {
    type V = Map<Seq<char>, Seq<char>>;

    closed spec fn view(&self) -> Map<Seq<char>, Seq<char>> {
        self.m@.map_values(|v: String| v@)
    }
}

impl Params {
    /// An empty table.
    pub fn new() -> (r: Params)
        ensures
            r@ == Map::<Seq<char>, Seq<char>>::empty(),
    {
        let r = Params { m: StringHashMap::new() };
        assert(r@ =~= Map::empty());
        r
    }

    /// The value of a name.
    pub fn get(&self, name: &str) -> (r: Option<&str>)
        ensures
            match r {
                Some(v) => self@.contains_key(name@) && v@ == self@[name@],
                None => !self@.contains_key(name@),
            },
    {
        match self.m.get(name) {
            Some(v) => Some(v.as_str()),
            None => None,
        }
    }

    /// The value of a name, or nothing.
    pub fn get_or_empty(&self, name: &str) -> (r: &str)
        ensures
            r@ == value_or_empty(self@, name@),
    {
        match self.get(name) {
            Some(v) => v,
            None => {
                assert(""@ =~= Seq::<char>::empty()) by {
                    reveal_strlit("");
                }
                ""
            },
        }
    }

    /// Gives a name a value, in place of the one it had.
    pub fn insert(&mut self, name: String, value: String)
        ensures
            final(self)@ == old(self)@.insert(name@, value@),
    {
        self.m.insert(name, value);
        assert(self@ =~= old(self)@.insert(name@, value@));
    }
}

/// The value of a name, or nothing.
pub open spec fn value_or_empty(params: Map<Seq<char>, Seq<char>>, name: Seq<char>) -> Seq<char> {
    if params.contains_key(name) {
        params[name]
    } else {
        Seq::empty()
    }
}

/// A table gives back what was put into it last under a name, and what was put under another name makes no
/// difference.
pub proof fn last_value_is_given_back(
    a: &mut Params,
    b: &mut Params,
    name: String,
    value: String,
    other: String,
    more: String,
    wanted: &str,
    r: Option<&str>,
    start: Params,
    nothing: Option<&str>,
)
    requires
        call_ensures(Params::insert, (a, name, value), ()),
        *old(b) == *final(a),
        call_ensures(Params::insert, (b, other, more), ()),
        call_ensures(Params::get, (final(b), wanted), r),
        wanted@ == name@,
        call_ensures(Params::new, (), start),
        call_ensures(Params::get, (&start, wanted), nothing),
    ensures
        other@ != name@ ==> (r matches Some(text) && text@ == value@),
        other@ == name@ ==> (r matches Some(text) && text@ == more@),
        nothing is None,
{
}

/// A value that was put in is had by its name, and an unknown name has the empty value.
pub proof fn value_is_had_by_name(
    p: &mut Params,
    name: String,
    value: String,
    ask: &str,
    r: &str,
    found: Option<&str>,
)
    requires
        call_ensures(Params::insert, (p, name, value), ()),
        call_ensures(Params::get_or_empty, (final(p), ask), r),
        call_ensures(Params::get, (final(p), ask), found),
    ensures
        ask@ == name@ ==> r@ == value@ && (found matches Some(v) && v@ == value@),
        ask@ != name@ ==> (found is Some <==> old(p)@.contains_key(ask@)),
        ask@ != name@ && old(p)@.contains_key(ask@) ==> r@ == old(p)@[ask@],
        ask@ != name@ && !old(p)@.contains_key(ask@) ==> r@.len() == 0,
{
}

} // verus!
