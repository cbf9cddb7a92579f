//! A JSON document as plain data: what cards, consent records and pipe messages are made of.

use vstd::prelude::*;

verus! {

/// A JSON number as the parser produced it. Integers keep their exact value; any other number
/// is carried as the decimal text the JSON writer prints for it.
#[derive(Debug, Clone, PartialEq, Eq)]
pub enum JsonNumber {
    PosInt(u64),
    NegInt(i64),
    Float(String),
}

/// A JSON value. An object keeps its members in the order they were given.
#[derive(Debug, PartialEq, Eq)]
pub enum Json {
    Null,
    Bool(bool),
    Number(JsonNumber),
    String(String),
    Array(Vec<Json>),
    Object(Vec<(String, Json)>),
}

/// The mathematical value of a JSON document: strings as character sequences, arrays and
/// objects as sequences.
pub enum JsonV {
    Null,
    Bool(bool),
    Number(JsonNumber),
    Str(Seq<char>),
    Array(Seq<JsonV>),
    Object(Seq<(Seq<char>, JsonV)>),
}

impl Json {
    pub open spec fn view(self) -> JsonV
        decreases self,
    {
        match self {
            Json::Null => JsonV::Null,
            Json::Bool(b) => JsonV::Bool(b),
            Json::Number(n) => JsonV::Number(n),
            Json::String(s) => JsonV::Str(s@),
            Json::Array(items) => {
                proof {
                    assert(decreases_to!(self => self->Array_0));
                    assert(decreases_to!(items => items@));
                }
                JsonV::Array(view_items(items@))
            },
            Json::Object(members) => {
                proof {
                    assert(decreases_to!(self => self->Object_0));
                    assert(decreases_to!(members => members@));
                }
                JsonV::Object(view_members(members@))
            },
        }
    }
}

pub open spec fn view_items(s: Seq<Json>) -> Seq<JsonV>
    decreases s,
{
    if s.len() == 0 {
        Seq::empty()
    } else {
        proof {
            assert(decreases_to!(s => s[s.len() - 1]));
        }
        view_items(s.drop_last()).push(s[s.len() - 1].view())
    }
}

pub open spec fn view_members(s: Seq<(String, Json)>) -> Seq<(Seq<char>, JsonV)>
    decreases s,
{
    if s.len() == 0 {
        Seq::empty()
    } else {
        proof {
            assert(decreases_to!(s => s[s.len() - 1]));
            assert(decreases_to!(s[s.len() - 1] => s[s.len() - 1].1));
        }
        view_members(s.drop_last()).push((s[s.len() - 1].0@, s[s.len() - 1].1.view()))
    }
}

/// The value of the first member of `members` named `key`.
pub open spec fn member(members: Seq<(Seq<char>, JsonV)>, key: Seq<char>) -> Option<JsonV>
    decreases members.len(),
{
    if members.len() == 0 {
        None
    } else if members[0].0 == key {
        Some(members[0].1)
    } else {
        member(members.drop_first(), key)
    }
}

/// `value[key]` in the JSON sense: the member of an object, `None` for anything else.
pub open spec fn get_spec(value: JsonV, key: Seq<char>) -> Option<JsonV> {
    match value {
        JsonV::Object(members) => member(members, key),
        _ => None,
    }
}

/// The value of an array's elements, one by one.
pub proof fn lemma_view_items_index(s: Seq<Json>)
    ensures
        view_items(s).len() == s.len(),
        forall|k: int| 0 <= k < s.len() ==> #[trigger] view_items(s)[k] == s[k]@,
    decreases s.len(),
{
    if s.len() > 0 {
        lemma_view_items_index(s.drop_last());
    }
}

/// The value of an object's members, one by one.
pub proof fn lemma_view_members_index(s: Seq<(String, Json)>)
    ensures
        view_members(s).len() == s.len(),
        forall|k: int|
            0 <= k < s.len() ==> #[trigger] view_members(s)[k] == (s[k].0@, s[k].1@),
    decreases s.len(),
{
    if s.len() > 0 {
        lemma_view_members_index(s.drop_last());
    }
}

/// Whether two strings hold the same characters.
pub fn str_eq(a: &str, b: &str) -> (r: bool)
    ensures
        r == (a@ == b@),
{
    let x = crate::text::chars_of(a);
    let y = crate::text::chars_of(b);
    if x.len() != y.len() {
        return false;
    }
    let mut i: usize = 0;
    while i < x.len()
        invariant
            x@ == a@,
            y@ == b@,
            x@.len() == y@.len(),
            i <= x@.len(),
            forall|k: int| 0 <= k < i ==> x@[k] == y@[k],
        decreases x@.len() - i,
    {
        if x[i] != y[i] {
            return false;
        }
        i = i + 1;
    }
    assert(x@ =~= y@);
    true
}

impl Clone for Json {
    fn clone(&self) -> (r: Self)
        ensures
            r@ == self@,
    {
        self.duplicate()
    }
}

/// Sequences whose elements have the same values have the same value.
pub proof fn lemma_view_items_ext(a: Seq<Json>, b: Seq<Json>)
    requires
        a.len() == b.len(),
        forall|k: int| 0 <= k < a.len() ==> (#[trigger] a[k])@ == b[k]@,
    ensures
        view_items(a) == view_items(b),
    decreases a.len(),
{
    if a.len() > 0 {
        lemma_view_items_ext(a.drop_last(), b.drop_last());
    }
}

/// Member lists whose names and values agree have the same value.
pub proof fn lemma_view_members_ext(a: Seq<(String, Json)>, b: Seq<(String, Json)>)
    requires
        a.len() == b.len(),
        forall|k: int| 0 <= k < a.len() ==> (#[trigger] a[k]).0@ == b[k].0@ && a[k].1@ == b[k].1@,
    ensures
        view_members(a) == view_members(b),
    decreases a.len(),
{
    if a.len() > 0 {
        lemma_view_members_ext(a.drop_last(), b.drop_last());
    }
}

impl Json {
    /// A copy of this value.
    pub fn duplicate(&self) -> (r: Json)
        ensures
            r@ == self@,
        decreases *self,
    {
        match self {
            Json::Null => Json::Null,
            Json::Bool(b) => Json::Bool(*b),
            Json::Number(n) => Json::Number(
                match n {
                    JsonNumber::PosInt(u) => JsonNumber::PosInt(*u),
                    JsonNumber::NegInt(i) => JsonNumber::NegInt(*i),
                    JsonNumber::Float(t) => JsonNumber::Float(t.clone()),
                },
            ),
            Json::String(s) => Json::String(s.clone()),
            Json::Array(items) => {
                let mut out: Vec<Json> = Vec::new();
                let mut i: usize = 0;
                while i < items.len()
                    invariant
                        i <= items@.len(),
                        *self == Json::Array(*items),
                        out@.len() == i,
                        forall|k: int| 0 <= k < i ==> (#[trigger] out@[k])@ == items@[k]@,
                    decreases items@.len() - i,
                {
                    proof {
                        assert(decreases_to!(*self => self->Array_0));
                        assert(decreases_to!(*items => items@));
                        assert(decreases_to!(items@ => items@[i as int]));
                    }
                    let d = items[i].duplicate();
                    out.push(d);
                    i = i + 1;
                }
                proof {
                    lemma_view_items_ext(out@, items@);
                }
                Json::Array(out)
            },
            Json::Object(members) => {
                let mut out: Vec<(String, Json)> = Vec::new();
                let mut i: usize = 0;
                while i < members.len()
                    invariant
                        i <= members@.len(),
                        *self == Json::Object(*members),
                        out@.len() == i,
                        forall|k: int|
                            0 <= k < i ==> (#[trigger] out@[k]).0@ == members@[k].0@ && out@[k].1@
                                == members@[k].1@,
                    decreases members@.len() - i,
                {
                    proof {
                        assert(decreases_to!(*self => self->Object_0));
                        assert(decreases_to!(*members => members@));
                        assert(decreases_to!(members@ => members@[i as int]));
                        assert(decreases_to!(members@[i as int] => members@[i as int].1));
                    }
                    let d = members[i].1.duplicate();
                    out.push((members[i].0.clone(), d));
                    i = i + 1;
                }
                proof {
                    lemma_view_members_ext(out@, members@);
                }
                Json::Object(out)
            },
        }
    }

    /// `self[key]`: the first member named `key` when this is an object.
    pub fn get(&self, key: &str) -> (r: Option<&Json>)
        ensures
            match r {
                Some(v) => get_spec(self@, key@) == Some(v@),
                None => get_spec(self@, key@).is_none(),
            },
    {
        match self {
            Json::Object(members) => {
                let ghost vm = view_members(members@);
                proof {
                    lemma_view_members_index(members@);
                    assert(vm.skip(0) =~= vm);
                }
                let mut i: usize = 0;
                while i < members.len()
                    invariant
                        i <= members@.len(),
                        *self == Json::Object(*members),
                        vm == view_members(members@),
                        vm.len() == members@.len(),
                        forall|k: int|
                            0 <= k < members@.len() ==> #[trigger] vm[k] == (
                                members@[k].0@,
                                members@[k].1@,
                            ),
                        member(vm, key@) == member(vm.skip(i as int), key@),
                    decreases members@.len() - i,
                {
                    assert(vm.skip(i as int).drop_first() =~= vm.skip(i + 1));
                    assert(vm.skip(i as int)[0] == vm[i as int]);
                    if str_eq(members[i].0.as_str(), key) {
                        return Some(&members[i].1);
                    }
                    i = i + 1;
                }
                None
            },
            _ => None,
        }
    }
}

} // verus!
