//! The JSON value tree and the mathematical model that contracts speak of.

use vstd::prelude::*;

verus! {

/// A JSON number. Integers are held exactly; any other number is held by the
/// literal that the serializer writes for it.
#[derive(Debug, PartialEq)]
pub enum Number {
    PosInt(u64),
    NegInt(i64),
    Float(String),
}

/// A JSON value tree. An object is a list of members in insertion order.
#[derive(Debug, PartialEq)]
pub enum Node {
    Null,
    Bool(bool),
    Number(Number),
    String(String),
    Array(Vec<Node>),
    Object(Vec<(String, Node)>),
}

/// What a `Number` stands for.
pub ghost enum Num {
    Int(int),
    Real(Seq<char>),
}

/// What a `Node` stands for.
pub ghost enum Json {
    Null,
    Bool(bool),
    Number(Num),
    String(Seq<char>),
    Array(Seq<Json>),
    Object(Seq<(Seq<char>, Json)>),
}

impl View for Number {
    type V = Num;

    open spec fn view(&self) -> Num {
        match self {
            Number::PosInt(u) => Num::Int(*u as int),
            Number::NegInt(i) => Num::Int(*i as int),
            Number::Float(s) => Num::Real(s@),
        }
    }
}

/// The tree that a value stands for.
pub open spec fn model(v: Node) -> Json
    decreases v,
{
    match v {
        Node::Null => Json::Null,
        Node::Bool(b) => Json::Bool(b),
        Node::Number(n) => Json::Number(n@),
        Node::String(s) => Json::String(s@),
        Node::Array(items) => Json::Array(
            Seq::new(
                items.len() as nat,
                |i: int|
                    if 0 <= i < items.len() {
                        model(items[i])
                    } else {
                        Json::Null
                    },
            ),
        ),
        Node::Object(members) => Json::Object(
            Seq::new(
                members.len() as nat,
                |i: int|
                    if 0 <= i < members.len() {
                        (members[i].0@, model(members[i].1))
                    } else {
                        (Seq::empty(), Json::Null)
                    },
            ),
        ),
    }
}

impl View for Node {
    type V = Json;

    open spec fn view(&self) -> Json {
        model(*self)
    }
}

/// The models of a sequence of values, one for one.
pub open spec fn views(items: Seq<Node>) -> Seq<Json> {
    Seq::new(items.len(), |i: int| items[i]@)
}

/// The models of a sequence of object members, one for one.
pub open spec fn member_views(members: Seq<(String, Node)>) -> Seq<(Seq<char>, Json)> {
    Seq::new(members.len(), |i: int| (members[i].0@, members[i].1@))
}

/// The model of an array is the sequence of its items' models.
pub proof fn lemma_array_view(items: Vec<Node>)
    ensures
        Node::Array(items)@ == Json::Array(views(items@)),
{
    assert(Node::Array(items)@->Array_0 =~= views(items@));
}

/// The model of an object is the sequence of its members' models.
pub proof fn lemma_object_view(members: Vec<(String, Node)>)
    ensures
        Node::Object(members)@ == Json::Object(member_views(members@)),
{
    let lhs = Node::Object(members)@->Object_0;
    let rhs = member_views(members@);
    assert forall|i: int| 0 <= i < lhs.len() implies lhs[i] == rhs[i] by {
        assert(members[i] == members@[i]);
    }
    assert(lhs =~= rhs);
}

/// The position of the first member named `key`, or `None`.
pub open spec fn key_index(members: Seq<(Seq<char>, Json)>, key: Seq<char>) -> Option<int>
    decreases members.len(),
{
    if members.len() == 0 {
        None
    } else {
        match key_index(members.drop_last(), key) {
            Some(i) => Some(i),
            None => if members.last().0 == key {
                Some(members.len() - 1)
            } else {
                None
            },
        }
    }
}

/// `key_index` finds the least position that holds the key.
pub proof fn lemma_key_index(members: Seq<(Seq<char>, Json)>, key: Seq<char>)
    ensures
        match key_index(members, key) {
            Some(i) => 0 <= i < members.len() && members[i].0 == key && forall|j: int|
                0 <= j < i ==> members[j].0 != key,
            None => forall|j: int| 0 <= j < members.len() ==> members[j].0 != key,
        },
    decreases members.len(),
{
    if members.len() > 0 {
        let init = members.drop_last();
        lemma_key_index(init, key);
        assert(forall|j: int| 0 <= j < init.len() ==> init[j] == members[j]);
    }
}

/// No two of the members share a name.
pub open spec fn distinct_names(members: Seq<(Seq<char>, Json)>) -> bool {
    forall|i: int, k: int|
        0 <= i < k < members.len() ==> (#[trigger] members[i]).0 != (#[trigger] members[k]).0
}

/// No two members of one object share a name, at any depth.
pub open spec fn well_formed(j: Json) -> bool
    decreases j,
{
    match j {
        Json::Array(items) => forall|i: int|
            0 <= i < items.len() ==> well_formed(#[trigger] items[i]),
        Json::Object(members) => {
            &&& distinct_names(members)
            &&& forall|i: int| 0 <= i < members.len() ==> well_formed((#[trigger] members[i]).1)
        },
        _ => true,
    }
}

/// Whether every one of the values is well formed.
pub open spec fn all_well_formed(vs: Seq<Json>) -> bool {
    forall|i: int| 0 <= i < vs.len() ==> well_formed(#[trigger] vs[i])
}

/// The name that the type of a value goes by.
pub open spec fn kind_name(j: Json) -> Seq<char> {
    match j {
        Json::Null => "null"@,
        Json::Bool(_) => "boolean"@,
        Json::Number(_) => "number"@,
        Json::String(_) => "string"@,
        Json::Array(_) => "array"@,
        Json::Object(_) => "object"@,
    }
}

/// Whether a value is neither an array nor an object.
pub open spec fn is_scalar(j: Json) -> bool {
    !(j is Array) && !(j is Object)
}

impl Clone for Number {
    fn clone(&self) -> (r: Self)
        ensures
            r@ == self@,
    {
        match self {
            Number::PosInt(u) => Number::PosInt(*u),
            Number::NegInt(i) => Number::NegInt(*i),
            Number::Float(s) => Number::Float(s.clone()),
        }
    }
}

impl Number {
    /// Whether two numbers are the same number in the same representation.
    pub fn same(&self, other: &Number) -> (r: bool)
        ensures
            r == (self@ == other@),
    {
        match self {
            Number::PosInt(a) => match other {
                Number::PosInt(b) => *a == *b,
                Number::NegInt(b) => *b >= 0 && *a <= 0x7fff_ffff_ffff_ffff && *a == (*b) as u64,
                Number::Float(_) => false,
            },
            Number::NegInt(a) => match other {
                Number::PosInt(b) => *a >= 0 && *b <= 0x7fff_ffff_ffff_ffff && *b == (*a) as u64,
                Number::NegInt(b) => *a == *b,
                Number::Float(_) => false,
            },
            Number::Float(a) => match other {
                Number::Float(b) => *a == *b,
                _ => false,
            },
        }
    }
}

/// A copy of a value tree.
pub fn copy_of(v: &Node) -> (r: Node)
    ensures
        r@ == v@,
    decreases v,
{
    match v {
        Node::Null => Node::Null,
        Node::Bool(b) => Node::Bool(*b),
        Node::Number(n) => Node::Number(n.clone()),
        Node::String(s) => Node::String(s.clone()),
        Node::Array(items) => {
            let mut out: Vec<Node> = Vec::new();
            let mut i: usize = 0;
            while i < items.len()
                invariant
                    *v == Node::Array(*items),
                    i <= items.len(),
                    out.len() == i,
                    forall|k: int| 0 <= k < i ==> out[k]@ == items[k]@,
                decreases items.len() - i,
            {
                proof {
                    assert(decreases_to!(*v => v->Array_0));
                    assert(decreases_to!(*items => items[i as int]));
                }
                out.push(copy_of(&items[i]));
                i += 1;
            }
            proof {
                lemma_array_view(out);
                lemma_array_view(*items);
                assert(views(out@) =~= views(items@));
            }
            Node::Array(out)
        },
        Node::Object(members) => {
            let mut out: Vec<(String, Node)> = Vec::new();
            let mut i: usize = 0;
            while i < members.len()
                invariant
                    *v == Node::Object(*members),
                    i <= members.len(),
                    out.len() == i,
                    forall|k: int|
                        0 <= k < i ==> out[k].0@ == members[k].0@ && out[k].1@ == members[k].1@,
                decreases members.len() - i,
            {
                proof {
                    assert(decreases_to!(*v => v->Object_0));
                    assert(decreases_to!(*members => members[i as int]));
                    assert(decreases_to!(members[i as int] => members[i as int].1));
                }
                out.push((members[i].0.clone(), copy_of(&members[i].1)));
                i += 1;
            }
            proof {
                lemma_object_view(out);
                lemma_object_view(*members);
                assert(member_views(out@) =~= member_views(members@));
            }
            Node::Object(out)
        },
    }
}

impl Clone for Node {
    fn clone(&self) -> (r: Self)
        ensures
            r@ == self@,
    {
        copy_of(self)
    }
}

impl Node {
    /// The name of this value's type.
    pub fn value_name(&self) -> (r: &'static str)
        ensures
            r@ == kind_name(self@),
    {
        match self {
            Node::Null => "null",
            Node::Bool(_) => "boolean",
            Node::Number(_) => "number",
            Node::String(_) => "string",
            Node::Array(_) => "array",
            Node::Object(_) => "object",
        }
    }

    /// Whether this value is a scalar equal to `needle`. An array or an
    /// object equals no needle, and no value equals a needle that is one.
    pub fn matches_scalar(&self, needle: &Node) -> (r: bool)
        ensures
            r == (is_scalar(needle@) && self@ == needle@),
    {
        match self {
            Node::Null => match needle {
                Node::Null => true,
                _ => false,
            },
            Node::Bool(a) => match needle {
                Node::Bool(b) => *a == *b,
                _ => false,
            },
            Node::Number(a) => match needle {
                Node::Number(b) => a.same(b),
                _ => false,
            },
            Node::String(a) => match needle {
                Node::String(b) => *a == *b,
                _ => false,
            },
            Node::Array(_) => false,
            Node::Object(_) => false,
        }
    }
}

} // verus!
