//! What each mutating command does to one matched value.

use crate::error::{
    Error, ErrorKind, Failure, mismatch, not_finite, out_of_bounds, type_mismatch,
};
use crate::value::{
    Json, Node, Num, Number, all_well_formed, copy_of, kind_name, lemma_array_view, views,
    well_formed,
};
use vstd::prelude::*;
use vstd::string::StringExecFns;

verus! {

/// The result of arithmetic on one number, computed outside this library.
#[derive(Debug)]
pub enum NumResult {
    /// The result, a finite number.
    Finite(Number),
    /// The result is infinite or not a number.
    NotFinite,
}

impl View for NumResult {
    type V = Option<Num>;

    open spec fn view(&self) -> Option<Num> {
        match self {
            NumResult::Finite(n) => Some(n@),
            NumResult::NotFinite => None,
        }
    }
}

/// A change to the value at a path.
#[derive(Debug)]
pub enum Update {
    /// Appends text to a string.
    StrAppend(String),
    /// Appends items to an array.
    ArrAppend(Vec<Node>),
    /// Inserts items into an array before the index; a negative index counts
    /// from the end.
    ArrInsert(i64, Vec<Node>),
    /// Removes one item from an array; a negative index counts from the end.
    ArrPop(i64),
    /// Keeps the items of an array from the first index to the second, both
    /// included.
    ArrTrim(usize, usize),
    /// Stores the results of arithmetic, the `i`-th in the `i`-th match.
    Numbers(Vec<NumResult>),
}

/// What an `Update` stands for.
pub ghost enum UpdateModel {
    StrAppend(Seq<char>),
    ArrAppend(Seq<Json>),
    ArrInsert(int, Seq<Json>),
    ArrPop(int),
    ArrTrim(nat, nat),
    Numbers(Seq<Option<Num>>),
}

/// The models of a sequence of results, one for one.
pub open spec fn num_views(rs: Seq<NumResult>) -> Seq<Option<Num>> {
    Seq::new(rs.len(), |i: int| rs[i]@)
}

impl View for Update {
    type V = UpdateModel;

    open spec fn view(&self) -> UpdateModel {
        match self {
            Update::StrAppend(s) => UpdateModel::StrAppend(s@),
            Update::ArrAppend(items) => UpdateModel::ArrAppend(views(items@)),
            Update::ArrInsert(index, items) => UpdateModel::ArrInsert(*index as int, views(items@)),
            Update::ArrPop(index) => UpdateModel::ArrPop(*index as int),
            Update::ArrTrim(start, stop) => UpdateModel::ArrTrim(*start as nat, *stop as nat),
            Update::Numbers(rs) => UpdateModel::Numbers(num_views(rs@)),
        }
    }
}

/// The failure for a match that no result was supplied for.
pub open spec fn missing_result() -> Failure {
    Failure { kind: ErrorKind::Range, msg: "ERR no result for this match"@ }
}

/// The position that an index denotes in an array of `len` items, counting a
/// negative one from the end.
pub open spec fn from_end(len: int, index: int) -> int {
    if index < 0 {
        len + index
    } else {
        index
    }
}

/// The position of the item that a pop removes: the index counted from the
/// end where negative, then brought into the array.
pub open spec fn pop_at(len: int, index: int) -> int {
    let at = from_end(len, index);
    if at < 0 {
        0
    } else if at > len - 1 {
        len - 1
    } else {
        at
    }
}

/// The last position that a trim of a non-empty array keeps: the requested
/// stop, or the last position that there is, if that is less.
pub open spec fn trim_stop(len: int, stop: int) -> int {
    if stop > len - 1 {
        len - 1
    } else {
        stop
    }
}

/// The first position that a trim keeps: the requested start, or the stop
/// if that is less.
pub open spec fn trim_start(len: int, start: int, stop: int) -> int {
    if start > trim_stop(len, stop) {
        trim_stop(len, stop)
    } else {
        start
    }
}

/// A string with text appended.
pub open spec fn str_appended(node: Json, text: Seq<char>) -> Result<Json, Failure> {
    match node {
        Json::String(s) => Ok(Json::String(s + text)),
        _ => Err(mismatch("string"@, kind_name(node))),
    }
}

/// An array with items appended.
pub open spec fn arr_appended(node: Json, items: Seq<Json>) -> Result<Json, Failure> {
    match node {
        Json::Array(xs) => Ok(Json::Array(xs + items)),
        _ => Err(mismatch("array"@, kind_name(node))),
    }
}

/// An array with items inserted before `index`. An index whose magnitude is
/// not less than the length is out of bounds.
pub open spec fn arr_inserted(node: Json, index: int, items: Seq<Json>) -> Result<Json, Failure> {
    match node {
        Json::Array(xs) => {
            let len = xs.len() as int;
            if index >= len || -index >= len {
                Err(out_of_bounds())
            } else {
                let at = from_end(len, index);
                Ok(Json::Array(xs.subrange(0, at) + items + xs.subrange(at, len)))
            }
        },
        _ => Err(mismatch("array"@, kind_name(node))),
    }
}

/// An array without the item that a pop at `index` removes. An empty array
/// has no item to remove.
pub open spec fn arr_popped(node: Json, index: int) -> Result<Json, Failure> {
    match node {
        Json::Array(xs) => if xs.len() == 0 {
            Err(out_of_bounds())
        } else {
            Ok(Json::Array(xs.remove(pop_at(xs.len() as int, index))))
        },
        _ => Err(mismatch("array"@, kind_name(node))),
    }
}

/// The item that a pop at `index` removes.
pub open spec fn arr_pop_item(node: Json, index: int) -> Result<Json, Failure> {
    match node {
        Json::Array(xs) => if xs.len() == 0 {
            Err(out_of_bounds())
        } else {
            Ok(xs[pop_at(xs.len() as int, index)])
        },
        _ => Err(mismatch("array"@, kind_name(node))),
    }
}

/// An array cut down to the items from `start` to `stop`, both included,
/// once the stop has been brought into the array and the start down to the
/// stop. An empty array stays empty.
pub open spec fn arr_trimmed(node: Json, start: int, stop: int) -> Result<Json, Failure> {
    match node {
        Json::Array(xs) => {
            let len = xs.len() as int;
            if len == 0 {
                Ok(Json::Array(xs))
            } else {
                Ok(
                    Json::Array(
                        xs.subrange(trim_start(len, start, stop), trim_stop(len, stop) + 1),
                    ),
                )
            }
        },
        _ => Err(mismatch("array"@, kind_name(node))),
    }
}

/// A number replaced by the `i`-th result.
pub open spec fn num_stored(node: Json, i: int, rs: Seq<Option<Num>>) -> Result<Json, Failure> {
    match node {
        Json::Number(_) => if 0 <= i < rs.len() {
            match rs[i] {
                Some(n) => Ok(Json::Number(n)),
                None => Err(not_finite()),
            }
        } else {
            Err(missing_result())
        },
        _ => Err(mismatch("number"@, kind_name(node))),
    }
}

/// What an update makes of the match with ordinal `i`.
pub open spec fn outcome(u: UpdateModel, i: int, node: Json) -> Result<Json, Failure> {
    match u {
        UpdateModel::StrAppend(text) => str_appended(node, text),
        UpdateModel::ArrAppend(items) => arr_appended(node, items),
        UpdateModel::ArrInsert(index, items) => arr_inserted(node, index, items),
        UpdateModel::ArrPop(index) => arr_popped(node, index),
        UpdateModel::ArrTrim(start, stop) => arr_trimmed(node, start as int, stop as int),
        UpdateModel::Numbers(rs) => num_stored(node, i, rs),
    }
}

/// The model of a result.
pub open spec fn result_view(r: Result<Node, Error>) -> Result<Json, Failure> {
    match r {
        Ok(v) => Ok(v@),
        Err(e) => Err(e@),
    }
}

/// Appends copies of the items of `src` from `from` up to `to` to `out`.
pub fn copy_items(src: &Vec<Node>, from: usize, to: usize, out: &mut Vec<Node>)
    requires
        from <= to <= src.len(),
    ensures
        views(final(out)@) == views(old(out)@) + views(src@).subrange(from as int, to as int),
{
    let ghost before = views(out@);
    let mut i: usize = from;
    proof {
        assert(before + views(src@).subrange(from as int, from as int) =~= before);
    }
    while i < to
        invariant
            from <= i <= to <= src.len(),
            views(out@) == before + views(src@).subrange(from as int, i as int),
        decreases to - i,
    {
        let ghost prev = out@;
        out.push(copy_of(&src[i]));
        proof {
            assert(views(out@) =~= views(prev).push(src[i as int]@));
            assert(views(src@).subrange(from as int, i + 1) =~= views(src@).subrange(
                from as int,
                i as int,
            ).push(src[i as int]@));
        }
        i += 1;
    }
}

/// The failure for a value that is not of the expected type.
fn wrong_type(expected: &str, node: &Node) -> (e: Error)
    ensures
        e@ == mismatch(expected@, kind_name(node@)),
{
    type_mismatch(expected, node.value_name())
}

/// Appends text to a string.
pub fn str_append(node: &Node, text: &String) -> (r: Result<Node, Error>)
    ensures
        result_view(r) == str_appended(node@, text@),
{
    match node {
        Node::String(s) => Ok(Node::String(s.clone().concat(text.as_str()))),
        _ => Err(wrong_type("string", node)),
    }
}

/// Appends items to an array.
pub fn arr_append(node: &Node, items: &Vec<Node>) -> (r: Result<Node, Error>)
    ensures
        result_view(r) == arr_appended(node@, views(items@)),
{
    match node {
        Node::Array(xs) => {
            let mut out: Vec<Node> = Vec::new();
            copy_items(xs, 0, xs.len(), &mut out);
            copy_items(items, 0, items.len(), &mut out);
            proof {
                lemma_array_view(*xs);
                lemma_array_view(out);
                assert(views(out@) =~= views(xs@) + views(items@));
            }
            Ok(Node::Array(out))
        },
        _ => Err(wrong_type("array", node)),
    }
}

/// Inserts items into an array before `index`.
pub fn arr_insert(node: &Node, index: i64, items: &Vec<Node>) -> (r: Result<Node, Error>)
    ensures
        result_view(r) == arr_inserted(node@, index as int, views(items@)),
{
    match node {
        Node::Array(xs) => {
            let len: i128 = xs.len() as i128;
            let idx: i128 = index as i128;
            if idx >= len || -idx >= len {
                Err(Error::new(ErrorKind::Range, "ERR index out of bounds"))
            } else {
                let at: usize = (if idx < 0 {
                    len + idx
                } else {
                    idx
                }) as usize;
                let mut out: Vec<Node> = Vec::new();
                copy_items(xs, 0, at, &mut out);
                copy_items(items, 0, items.len(), &mut out);
                copy_items(xs, at, xs.len(), &mut out);
                proof {
                    lemma_array_view(*xs);
                    lemma_array_view(out);
                    assert(views(out@) =~= views(xs@).subrange(0, at as int) + views(items@)
                        + views(xs@).subrange(at as int, xs.len() as int));
                }
                Ok(Node::Array(out))
            }
        },
        _ => Err(wrong_type("array", node)),
    }
}

/// The position of the item that a pop removes from an array of `len` items.
fn pop_position(len: usize, index: i64) -> (at: usize)
    requires
        len > 0,
    ensures
        at == pop_at(len as int, index as int),
        at < len,
{
    let n: i128 = len as i128;
    let idx: i128 = index as i128;
    let at: i128 = if idx < 0 {
        n + idx
    } else {
        idx
    };
    if at < 0 {
        0
    } else if at > n - 1 {
        len - 1
    } else {
        at as usize
    }
}

/// Removes from an array the item that a pop at `index` removes.
pub fn arr_pop(node: &Node, index: i64) -> (r: Result<Node, Error>)
    ensures
        result_view(r) == arr_popped(node@, index as int),
{
    match node {
        Node::Array(xs) => {
            if xs.len() == 0 {
                Err(Error::new(ErrorKind::Range, "ERR index out of bounds"))
            } else {
                let at = pop_position(xs.len(), index);
                let mut out: Vec<Node> = Vec::new();
                copy_items(xs, 0, at, &mut out);
                copy_items(xs, at + 1, xs.len(), &mut out);
                proof {
                    lemma_array_view(*xs);
                    lemma_array_view(out);
                    assert(views(out@) =~= views(xs@).remove(at as int));
                }
                Ok(Node::Array(out))
            }
        },
        _ => Err(wrong_type("array", node)),
    }
}

/// The item that a pop at `index` removes from an array.
pub fn arr_pop_value(node: &Node, index: i64) -> (r: Result<Node, Error>)
    ensures
        result_view(r) == arr_pop_item(node@, index as int),
{
    match node {
        Node::Array(xs) => {
            if xs.len() == 0 {
                Err(Error::new(ErrorKind::Range, "ERR index out of bounds"))
            } else {
                let at = pop_position(xs.len(), index);
                proof {
                    lemma_array_view(*xs);
                }
                Ok(copy_of(&xs[at]))
            }
        },
        _ => Err(wrong_type("array", node)),
    }
}

/// Cuts an array down to the items from `start` to `stop`, both included.
pub fn arr_trim(node: &Node, start: usize, stop: usize) -> (r: Result<Node, Error>)
    ensures
        result_view(r) == arr_trimmed(node@, start as int, stop as int),
{
    match node {
        Node::Array(xs) => {
            let len = xs.len();
            let mut out: Vec<Node> = Vec::new();
            proof {
                lemma_array_view(*xs);
            }
            if len == 0 {
                proof {
                    lemma_array_view(out);
                    assert(views(out@) =~= views(xs@));
                }
                return Ok(Node::Array(out));
            }
            let to: usize = if stop > len - 1 {
                len - 1
            } else {
                stop
            };
            let from: usize = if start > to {
                to
            } else {
                start
            };
            copy_items(xs, from, to + 1, &mut out);
            proof {
                lemma_array_view(out);
                assert(views(out@) =~= views(xs@).subrange(from as int, to + 1));
            }
            Ok(Node::Array(out))
        },
        _ => Err(wrong_type("array", node)),
    }
}

/// Replaces a number by the `i`-th result.
pub fn num_store(node: &Node, i: usize, results: &Vec<NumResult>) -> (r: Result<Node, Error>)
    ensures
        result_view(r) == num_stored(node@, i as int, num_views(results@)),
{
    match node {
        Node::Number(_) => {
            if i < results.len() {
                match &results[i] {
                    NumResult::Finite(n) => Ok(Node::Number(n.clone())),
                    NumResult::NotFinite => Err(
                        Error::new(ErrorKind::Arithmetic, "ERR cannot represent result as Number"),
                    ),
                }
            } else {
                Err(Error::new(ErrorKind::Range, "ERR no result for this match"))
            }
        },
        _ => Err(wrong_type("number", node)),
    }
}

impl Update {
    /// What this update makes of the match `node`, whose ordinal is `i`.
    pub fn apply(&self, i: usize, node: &Node) -> (r: Result<Node, Error>)
        ensures
            result_view(r) == outcome(self@, i as int, node@),
    {
        match self {
            Update::StrAppend(text) => str_append(node, text),
            Update::ArrAppend(items) => arr_append(node, items),
            Update::ArrInsert(index, items) => arr_insert(node, *index, items),
            Update::ArrPop(index) => arr_pop(node, *index),
            Update::ArrTrim(start, stop) => arr_trim(node, *start, *stop),
            Update::Numbers(results) => num_store(node, i, results),
        }
    }
}

/// Whether the values that an update brings are well formed.
pub open spec fn update_well_formed(u: UpdateModel) -> bool {
    match u {
        UpdateModel::ArrAppend(items) => all_well_formed(items),
        UpdateModel::ArrInsert(_, items) => all_well_formed(items),
        _ => true,
    }
}

/// What an update makes of a well-formed value is well formed, where the
/// values that the update brings are.
pub proof fn lemma_outcome_well_formed(u: UpdateModel, i: int, node: Json)
    requires
        well_formed(node),
        update_well_formed(u),
    ensures
        outcome(u, i, node) is Ok ==> well_formed(outcome(u, i, node)->Ok_0),
{
    if outcome(u, i, node) is Ok {
        let made = outcome(u, i, node)->Ok_0;
        match node {
            Json::Array(xs) => {
                let out = made->Array_0;
                assert forall|k: int| 0 <= k < out.len() implies well_formed(#[trigger] out[k]) by {
                    match u {
                        UpdateModel::ArrAppend(items) => {
                            if k < xs.len() {
                                assert(out[k] == xs[k]);
                            } else {
                                assert(out[k] == items[k - xs.len()]);
                            }
                        },
                        UpdateModel::ArrInsert(index, items) => {
                            let at = from_end(xs.len() as int, index);
                            if k < at {
                                assert(out[k] == xs[k]);
                            } else if k < at + items.len() {
                                assert(out[k] == items[k - at]);
                            } else {
                                assert(out[k] == xs[k - items.len()]);
                            }
                        },
                        UpdateModel::ArrPop(index) => {
                            let at = pop_at(xs.len() as int, index);
                            if k < at {
                                assert(out[k] == xs[k]);
                            } else {
                                assert(out[k] == xs[k + 1]);
                            }
                        },
                        UpdateModel::ArrTrim(start, stop) => {
                            let from = trim_start(xs.len() as int, start as int, stop as int);
                            assert(out[k] == xs[k + from]);
                        },
                        _ => {},
                    }
                }
            },
            _ => {},
        }
    }
}

} // verus!
