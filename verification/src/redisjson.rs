//! The document stored under one key, and what the commands do to it.

use crate::codec::{
    bson_decode, bson_decoded, encode, json_decode, json_decoded, json_encoded,
};
use crate::engine::{
    Edit, EditModel, collect, has_member, lacks_member, lemma_rewritten_well_formed,
    lemma_targets_well_formed, ref_views, rewrite, rewritten, targets,
};
use crate::error::{
    Error, ErrorKind, Failure, mismatch, no_match, out_of_bounds, type_mismatch,
};
use crate::ops::{
    Update, UpdateModel, lemma_outcome_well_formed, outcome, result_view, update_well_formed,
};
use crate::path::{Seg, Segment, malformed, parse_path, parsed, steps};
use crate::value::{
    Json, Node, copy_of, is_scalar, kind_name, lemma_array_view, lemma_object_view, member_views,
    views, well_formed,
};
use vstd::prelude::*;
use vstd::string::StrSliceExecFns;
use vstd::string::StringExecFns;

verus! {

/// A guard on setting a value.
#[derive(Debug, PartialEq, Eq, Clone, Copy, Structural)]
pub enum SetOptions {
    /// Set only what does not exist yet.
    NotExists,
    /// Set only what exists already.
    AlreadyExists,
    /// Set in either case.
    Always,
}

/// The form of a payload.
#[derive(Debug, PartialEq, Eq, Clone, Copy, Structural)]
pub enum Format {
    JSON,
    BSON,
}

/// The failure for the name of an unknown format.
pub open spec fn wrong_format() -> Failure {
    Failure { kind: ErrorKind::Parse, msg: "ERR wrong format"@ }
}

/// Whether a text spells the given four letters.
fn spells(s: &str, a: char, b: char, c: char, d: char) -> (r: bool)
    ensures
        r == (s@ == seq![a, b, c, d]),
{
    if s.unicode_len() != 4 {
        return false;
    }
    let r = s.get_char(0) == a && s.get_char(1) == b && s.get_char(2) == c && s.get_char(3) == d;
    proof {
        if r {
            assert(s@ =~= seq![a, b, c, d]);
        }
    }
    r
}

impl Format {
    /// The format that a name denotes: `JSON` or `BSON`, in capitals.
    pub fn from_str(s: &str) -> (r: Result<Format, Error>)
        ensures
            s@ == "JSON"@ ==> r == Ok::<Format, Error>(Format::JSON),
            s@ == "BSON"@ ==> r == Ok::<Format, Error>(Format::BSON),
            s@ != "JSON"@ && s@ != "BSON"@ ==> r is Err && r->Err_0@ == wrong_format(),
    {
        proof {
            reveal_strlit("JSON");
            reveal_strlit("BSON");
            assert("JSON"@ =~= seq!['J', 'S', 'O', 'N']);
            assert("BSON"@ =~= seq!['B', 'S', 'O', 'N']);
        }
        if spells(s, 'J', 'S', 'O', 'N') {
            Ok(Format::JSON)
        } else if spells(s, 'B', 'S', 'O', 'N') {
            Ok(Format::BSON)
        } else {
            Err(Error::new(ErrorKind::Parse, "ERR wrong format"))
        }
    }
}

/// The document stored under one key.
#[derive(Debug)]
pub struct RedisJSON {
    data: Node,
}

impl View for RedisJSON {
    type V = Json;

    closed spec fn view(&self) -> Json {
        self.data@
    }
}

/// The failure for a payload that cannot be read, with the reader's message.
pub open spec fn unreadable(msg: Seq<char>) -> Failure {
    Failure { kind: ErrorKind::Parse, msg }
}

/// The value that a payload holds. A BSON payload holds the value of its
/// first element, or null where it has none.
pub open spec fn payload(data: Seq<char>, format: Format) -> Result<Json, Failure> {
    match format {
        Format::JSON => match json_decoded(data) {
            Ok(j) => Ok(j),
            Err(m) => Err(unreadable(m)),
        },
        Format::BSON => match bson_decoded(data) {
            Ok(vs) => Ok(
                if vs.len() >= 1 {
                    vs[0]
                } else {
                    Json::Null
                },
            ),
            Err(m) => Err(unreadable(m)),
        },
    }
}

/// The first value that a path matches in a document.
pub open spec fn found(doc: Json, path: Seq<char>) -> Result<Json, Failure> {
    match parsed(path) {
        None => Err(malformed()),
        Some(p) => if targets(doc, p).len() == 0 {
            Err(no_match())
        } else {
            Ok(targets(doc, p)[0])
        },
    }
}

/// The failure for a format that nothing can be written in yet.
pub open spec fn unwritable() -> Failure {
    Failure { kind: ErrorKind::Parse, msg: "Soon to come..."@ }
}

/// The text of a value.
pub open spec fn text_of(j: Json) -> Seq<char> {
    json_encoded(j)
}

/// The text of the first value that a path matches.
pub open spec fn text_at(doc: Json, path: Seq<char>, format: Format) -> Result<Seq<char>, Failure> {
    match found(doc, path) {
        Err(f) => Err(f),
        Ok(j) => match format {
            Format::JSON => Ok(text_of(j)),
            Format::BSON => Err(unwritable()),
        },
    }
}

/// The model of a text or a failure.
pub open spec fn text_view(r: Result<String, Error>) -> Result<Seq<char>, Failure> {
    match r {
        Ok(s) => Ok(s@),
        Err(e) => Err(e@),
    }
}

/// The model of a borrowed value or a failure.
pub open spec fn ref_view(r: Result<&Node, Error>) -> Result<Json, Failure> {
    match r {
        Ok(v) => Ok(v@),
        Err(e) => Err(e@),
    }
}

/// How many of the values are not null.
pub open spec fn non_null(ts: Seq<Json>) -> nat
    decreases ts.len(),
{
    if ts.len() == 0 {
        0
    } else {
        non_null(ts.drop_last()) + if ts.last() is Null {
            0nat
        } else {
            1nat
        }
    }
}

/// The document once every match of the path has been removed. Removing
/// the root leaves null.
pub open spec fn pruned(doc: Json, p: Seq<Seg>) -> Json {
    match rewritten(doc, p, EditModel::Remove, 0) {
        Some(j) => j,
        None => Json::Null,
    }
}

/// What an update makes of each match, in document order.
pub open spec fn outcomes(ts: Seq<Json>, u: UpdateModel) -> Seq<Result<Json, Failure>> {
    Seq::new(ts.len(), |i: int| outcome(u, i, ts[i]))
}

/// The new values among the outcomes, in order.
pub open spec fn successes(outs: Seq<Result<Json, Failure>>) -> Seq<Json>
    decreases outs.len(),
{
    if outs.len() == 0 {
        Seq::empty()
    } else {
        match outs.last() {
            Ok(j) => successes(outs.drop_last()).push(j),
            Err(_) => successes(outs.drop_last()),
        }
    }
}

/// The failures among the outcomes, in order.
pub open spec fn failures(outs: Seq<Result<Json, Failure>>) -> Seq<Failure>
    decreases outs.len(),
{
    if outs.len() == 0 {
        Seq::empty()
    } else {
        match outs.last() {
            Ok(_) => failures(outs.drop_last()),
            Err(f) => failures(outs.drop_last()).push(f),
        }
    }
}

/// The texts of the failures, one after the other.
pub open spec fn joined(fs: Seq<Failure>) -> Seq<char>
    decreases fs.len(),
{
    if fs.len() == 0 {
        Seq::empty()
    } else {
        joined(fs.drop_last()) + fs.last().msg
    }
}

/// The one failure that stands for all: a single failure as it is, several
/// as one whose text joins theirs.
pub open spec fn combined(fs: Seq<Failure>) -> Failure {
    if fs.len() == 1 {
        fs[0]
    } else {
        Failure { kind: ErrorKind::Compound, msg: joined(fs) }
    }
}

/// The last of the values, or null where there is none.
pub open spec fn last_or_null(vs: Seq<Json>) -> Json {
    if vs.len() == 0 {
        Json::Null
    } else {
        vs.last()
    }
}

/// The values that a path matches in a document, in document order.
pub open spec fn matched(doc: Json, path: Seq<char>) -> Result<Seq<Json>, Failure> {
    match parsed(path) {
        None => Err(malformed()),
        Some(p) => Ok(targets(doc, p)),
    }
}

/// What an update at a path does: the last new value and the document with
/// every match replaced, where every match takes the update; else the
/// failures as one, and the document as it was.
pub open spec fn updated(doc: Json, p: Seq<Seg>, u: UpdateModel) -> (Result<Json, Failure>, Json) {
    let outs = outcomes(targets(doc, p), u);
    if failures(outs).len() == 0 {
        match rewritten(doc, p, EditModel::Replace(successes(outs)), 0) {
            Some(after) => (Ok(last_or_null(successes(outs))), after),
            None => (Ok(last_or_null(successes(outs))), doc),
        }
    } else {
        (Err(combined(failures(outs))), doc)
    }
}

/// The models of a sequence of errors, one for one.
pub open spec fn error_views(es: Seq<Error>) -> Seq<Failure> {
    Seq::new(es.len(), |i: int| es[i]@)
}

/// Where every outcome is a new value, the new values are the outcomes.
pub proof fn lemma_all_succeed(outs: Seq<Result<Json, Failure>>)
    ensures
        successes(outs).len() + failures(outs).len() == outs.len(),
        failures(outs).len() == 0 ==> forall|i: int|
            0 <= i < outs.len() ==> outs[i] == Ok::<Json, Failure>(#[trigger] successes(outs)[i]),
        failures(outs).len() == 0 <==> forall|i: int| 0 <= i < outs.len() ==> #[trigger] outs[i] is Ok,
    decreases outs.len(),
{
    if outs.len() > 0 {
        let init = outs.drop_last();
        lemma_all_succeed(init);
        assert(forall|i: int| 0 <= i < init.len() ==> init[i] == outs[i]);
        if failures(outs).len() == 0 {
            assert(outs.last() is Ok);
            assert forall|i: int| 0 <= i < outs.len() implies outs[i] == Ok::<Json, Failure>(
                #[trigger] successes(outs)[i],
            ) by {
                if i < init.len() {
                    assert(successes(outs)[i] == successes(init)[i]);
                }
            }
        }
        if forall|i: int| 0 <= i < outs.len() ==> #[trigger] outs[i] is Ok {
            assert(outs[outs.len() - 1] is Ok);
            assert forall|i: int| 0 <= i < init.len() implies #[trigger] init[i] is Ok by {
                assert(outs[i] is Ok);
            }
        }
    }
}

/// The failure for a path that cannot name a new member.
pub open spec fn not_static() -> Failure {
    Failure { kind: ErrorKind::Path, msg: "Err: wrong static path"@ }
}

/// Whether any of the values is an object without a member named `key`.
pub open spec fn any_lacks(ts: Seq<Json>, key: Seq<char>) -> bool {
    exists|i: int| 0 <= i < ts.len() && lacks_member(#[trigger] ts[i], key)
}

/// What adding a member at a path does: whether any object took the new
/// member, and the document after it. The last step names the member; the
/// steps before it find the objects.
pub open spec fn added(doc: Json, p: Seq<Seg>, v: Json) -> Result<(bool, Json), Failure> {
    if p.len() == 0 || !(p.last() is Key) {
        Err(not_static())
    } else {
        let key = p.last()->Key_0;
        let prefix = p.drop_last();
        match rewritten(doc, prefix, EditModel::Insert(key, v), 0) {
            Some(j) => Ok((any_lacks(targets(doc, prefix), key), j)),
            None => Ok((false, doc)),
        }
    }
}

/// What setting a value at a path does: whether anything was set, and the
/// document after it.
pub open spec fn set_at(doc: Json, p: Seq<Seg>, v: Json, option: SetOptions) -> Result<
    (bool, Json),
    Failure,
> {
    if p.len() == 0 {
        if option == SetOptions::NotExists {
            Ok((false, doc))
        } else {
            Ok((true, v))
        }
    } else if option != SetOptions::NotExists && targets(doc, p).len() > 0 {
        match rewritten(doc, p, EditModel::Put(v), 0) {
            Some(j) => Ok((true, j)),
            None => Ok((false, doc)),
        }
    } else if option != SetOptions::AlreadyExists {
        added(doc, p, v)
    } else {
        Ok((false, doc))
    }
}

/// The number of bytes that a text takes in UTF-8.
pub open spec fn byte_len(s: Seq<char>) -> nat {
    vstd::utf8::encode_utf8(s).len()
}

/// The number of bytes that a text takes in UTF-8.
pub fn byte_length(s: &str) -> (n: usize)
    ensures
        n == byte_len(s@),
{
    s.as_bytes().len()
}

/// The names of the members, in order.
pub open spec fn member_names(members: Seq<(Seq<char>, Json)>) -> Seq<Seq<char>> {
    Seq::new(members.len(), |i: int| members[i].0)
}

/// The last position at which a search of `len` items up to `end` looks:
/// `end`, or the last position that there is, if that is less.
pub open spec fn search_end(len: int, end: int) -> int {
    if end > len - 1 {
        len - 1
    } else {
        end
    }
}

/// The first position at which a search from `start` looks.
pub open spec fn search_start(len: int, start: int, end: int) -> int {
    if start > search_end(len, end) {
        search_end(len, end)
    } else {
        start
    }
}

/// Whether the item at `i` lies in the searched range and equals the needle.
pub open spec fn hit(xs: Seq<Json>, needle: Json, start: int, end: int, i: int) -> bool {
    search_start(xs.len() as int, start, end) <= i <= search_end(xs.len() as int, end) && 0 <= i
        < xs.len() && xs[i] == needle
}

/// Whether `i` is the least position in the searched range whose item
/// equals the needle.
pub open spec fn least_hit(xs: Seq<Json>, needle: Json, start: int, end: int, i: int) -> bool {
    hit(xs, needle, start, end, i) && forall|k: int| hit(xs, needle, start, end, k) ==> i <= k
}

/// Whether a reply gives the position `i`. A position that no reply can
/// hold is out of bounds.
pub open spec fn index_reply(r: Result<i64, Error>, i: int) -> bool {
    if i <= i64::MAX {
        r is Ok && r->Ok_0 == i
    } else {
        r is Err && r->Err_0@ == out_of_bounds()
    }
}

/// The text of one entry of a listing: the path in quotes, a colon, and the
/// text of the first value that the path matches, or of null where it
/// matches nothing or is malformed.
pub open spec fn entry_text(doc: Json, path: Seq<char>) -> Seq<char> {
    let value = match found(doc, path) {
        Ok(j) => j,
        Err(_) => Json::Null,
    };
    "\""@ + path + "\":"@ + text_of(value)
}

/// The entries for the paths, with a comma between one and the next.
pub open spec fn listed(doc: Json, paths: Seq<Seq<char>>) -> Seq<char>
    decreases paths.len(),
{
    if paths.len() == 0 {
        Seq::empty()
    } else if paths.len() == 1 {
        entry_text(doc, paths.last())
    } else {
        listed(doc, paths.drop_last()) + ","@ + entry_text(doc, paths.last())
    }
}

/// The listing of the paths: the entries between braces.
pub open spec fn listing(doc: Json, paths: Seq<Seq<char>>) -> Seq<char> {
    "{"@ + listed(doc, paths) + "}"@
}

/// The texts of a sequence of strings, one for one.
pub open spec fn texts(items: Seq<String>) -> Seq<Seq<char>> {
    Seq::new(items.len(), |i: int| items[i]@)
}

/// The texts of a sequence of borrowed strings, one for one.
pub open spec fn ref_texts(items: Seq<&String>) -> Seq<Seq<char>> {
    Seq::new(items.len(), |i: int| (*items[i])@)
}

/// Every new value among the outcomes is the value of one outcome.
pub proof fn lemma_successes(outs: Seq<Result<Json, Failure>>)
    ensures
        forall|k: int|
            0 <= k < successes(outs).len() ==> exists|i: int|
                0 <= i < outs.len() && outs[i] == Ok::<Json, Failure>(
                    #[trigger] successes(outs)[k],
                ),
    decreases outs.len(),
{
    if outs.len() > 0 {
        let init = outs.drop_last();
        lemma_successes(init);
        assert forall|k: int| 0 <= k < successes(outs).len() implies exists|i: int|
            0 <= i < outs.len() && outs[i] == Ok::<Json, Failure>(
                #[trigger] successes(outs)[k],
            ) by {
            if k < successes(init).len() {
                let i = choose|i: int|
                    0 <= i < init.len() && init[i] == Ok::<Json, Failure>(successes(init)[k]);
                assert(outs[i] == Ok::<Json, Failure>(successes(outs)[k]));
            } else {
                assert(outs[outs.len() - 1] == Ok::<Json, Failure>(successes(outs)[k]));
            }
        }
    }
}

/// An update keeps a well-formed document well formed, where the values
/// that it brings are well formed.
pub proof fn lemma_updated_well_formed(doc: Json, p: Seq<Seg>, u: UpdateModel)
    requires
        well_formed(doc),
        update_well_formed(u),
    ensures
        well_formed(updated(doc, p, u).1),
        updated(doc, p, u).0 is Ok ==> well_formed(updated(doc, p, u).0->Ok_0),
{
    let ts = targets(doc, p);
    let outs = outcomes(ts, u);
    let news = successes(outs);
    lemma_targets_well_formed(doc, p);
    lemma_successes(outs);
    assert forall|k: int| 0 <= k < news.len() implies well_formed(#[trigger] news[k]) by {
        let i = choose|i: int| 0 <= i < outs.len() && outs[i] == Ok::<Json, Failure>(news[k]);
        assert(well_formed(ts[i]));
        lemma_outcome_well_formed(u, i, ts[i]);
    }
    lemma_rewritten_well_formed(doc, p, EditModel::Replace(news), 0);
}

/// Setting a well-formed value keeps a well-formed document well formed.
pub proof fn lemma_set_well_formed(doc: Json, p: Seq<Seg>, v: Json, option: SetOptions)
    requires
        well_formed(doc),
        well_formed(v),
    ensures
        set_at(doc, p, v, option) is Ok ==> well_formed(set_at(doc, p, v, option)->Ok_0.1),
        added(doc, p, v) is Ok ==> well_formed(added(doc, p, v)->Ok_0.1),
{
    lemma_rewritten_well_formed(doc, p, EditModel::Put(v), 0);
    if p.len() > 0 && p.last() is Key {
        lemma_rewritten_well_formed(doc, p.drop_last(), EditModel::Insert(p.last()->Key_0, v), 0);
    }
}

/// Removing the matches of a path keeps a well-formed document well formed.
pub proof fn lemma_pruned_well_formed(doc: Json, p: Seq<Seg>)
    requires
        well_formed(doc),
    ensures
        well_formed(pruned(doc, p)),
{
    lemma_rewritten_well_formed(doc, p, EditModel::Remove, 0);
}

/// One failure for all the errors.
fn combine(errors: &Vec<Error>) -> (e: Error)
    requires
        errors.len() > 0,
    ensures
        e@ == combined(error_views(errors@)),
{
    let ghost fs = error_views(errors@);
    if errors.len() == 1 {
        return errors[0].clone();
    }
    let mut msg = String::new();
    let mut i: usize = 0;
    proof {
        assert(fs.take(0) =~= Seq::<Failure>::empty());
    }
    while i < errors.len()
        invariant
            i <= errors.len(),
            fs == error_views(errors@),
            msg@ == joined(fs.take(i as int)),
        decreases errors.len() - i,
    {
        proof {
            assert(fs.take(i + 1).drop_last() =~= fs.take(i as int));
        }
        msg.append(errors[i].msg.as_str());
        i += 1;
    }
    proof {
        assert(fs.take(errors.len() as int) =~= fs);
    }
    Error { kind: ErrorKind::Compound, msg }
}

/// The nodes that the steps match in a tree, in document order.
fn resolve<'a>(root: &'a Node, segs: &Vec<Segment>) -> (r: Vec<&'a Node>)
    ensures
        ref_views(r@) == targets(root@, steps(segs@)),
{
    let mut out: Vec<&'a Node> = Vec::new();
    collect(root, segs, 0, &mut out);
    proof {
        assert(steps(segs@).skip(0) =~= steps(segs@));
        assert(ref_views(Seq::<&Node>::empty()) + targets(root@, steps(segs@)) =~= targets(
            root@,
            steps(segs@),
        ));
    }
    out
}

/// How many of the nodes are not null.
fn count_non_null(nodes: &Vec<&Node>) -> (n: usize)
    ensures
        n == non_null(ref_views(nodes@)),
{
    let ghost ts = ref_views(nodes@);
    let mut n: usize = 0;
    let mut i: usize = 0;
    proof {
        assert(ts.take(0) =~= Seq::<Json>::empty());
    }
    while i < nodes.len()
        invariant
            i <= nodes.len(),
            ts == ref_views(nodes@),
            n == non_null(ts.take(i as int)),
            n <= i,
        decreases nodes.len() - i,
    {
        proof {
            assert(ts.take(i + 1).drop_last() =~= ts.take(i as int));
        }
        match nodes[i] {
            Node::Null => {},
            _ => {
                n += 1;
            },
        }
        i += 1;
    }
    proof {
        assert(ts.take(nodes.len() as int) =~= ts);
    }
    n
}

impl RedisJSON {
    /// Whether no two members of one object in the document share a name.
    pub open spec fn wf(&self) -> bool {
        well_formed(self@)
    }

    /// Reads a payload in the given format.
    pub fn parse_str(data: &str, format: Format) -> (r: Result<Node, Error>)
        ensures
            result_view(r) == payload(data@, format),
            r is Ok ==> well_formed(r->Ok_0@),
    {
        match format {
            Format::JSON => match json_decode(data) {
                Ok(v) => Ok(v),
                Err(m) => Err(Error { kind: ErrorKind::Parse, msg: m }),
            },
            Format::BSON => match bson_decode(data) {
                Ok(vs) => {
                    if vs.len() >= 1 {
                        Ok(copy_of(&vs[0]))
                    } else {
                        Ok(Node::Null)
                    }
                },
                Err(m) => Err(Error { kind: ErrorKind::Parse, msg: m }),
            },
        }
    }

    /// The document that a payload holds.
    pub fn from_str(data: &str, format: Format) -> (r: Result<Self, Error>)
        ensures
            match payload(data@, format) {
                Ok(j) => r is Ok && r->Ok_0@ == j && r->Ok_0.wf(),
                Err(f) => r is Err && r->Err_0@ == f,
            },
    {
        match RedisJSON::parse_str(data, format) {
            Ok(value) => Ok(RedisJSON { data: value }),
            Err(e) => Err(e),
        }
    }

    /// The document that holds the given tree.
    pub fn from_value(value: Node) -> (r: Self)
        ensures
            r@ == value@,
            r.wf() == well_formed(value@),
    {
        RedisJSON { data: value }
    }

    /// The root of the document.
    pub fn root(&self) -> (r: &Node)
        ensures
            r@ == self@,
    {
        &self.data
    }

    /// The values that the path matches, in document order.
    pub fn matches<'a>(&'a self, path: &str) -> (r: Result<Vec<&'a Node>, Error>)
        ensures
            match matched(self@, path@) {
                Ok(ts) => r is Ok && ref_views(r->Ok_0@) == ts,
                Err(f) => r is Err && r->Err_0@ == f,
            },
    {
        match parse_path(path) {
            Ok(segs) => Ok(resolve(&self.data, &segs)),
            Err(e) => Err(e),
        }
    }

    /// The first value that the path matches.
    pub fn get_doc<'a>(&'a self, path: &'a str) -> (r: Result<&'a Node, Error>)
        ensures
            ref_view(r) == found(self@, path@),
    {
        let segs = match parse_path(path) {
            Ok(segs) => segs,
            Err(e) => {
                return Err(e);
            },
        };
        let nodes = resolve(&self.data, &segs);
        if nodes.len() == 0 {
            Err(Error::new(ErrorKind::Path, "ERR path does not exist"))
        } else {
            Ok(nodes[0])
        }
    }

    /// The text of the first value that the path matches.
    pub fn to_string(&self, path: &str, format: Format) -> (r: Result<String, Error>)
        ensures
            text_view(r) == text_at(self@, path@, format),
    {
        let node = match self.get_doc(path) {
            Ok(node) => node,
            Err(e) => {
                return Err(e);
            },
        };
        match format {
            Format::JSON => Ok(encode(node)),
            Format::BSON => Err(Error::new(ErrorKind::Parse, "Soon to come...")),
        }
    }

    /// The name of the type of the first value that the path matches.
    pub fn get_type(&self, path: &str) -> (r: Result<String, Error>)
        ensures
            text_view(r) == match found(self@, path@) {
                Ok(j) => Ok::<Seq<char>, Failure>(kind_name(j)),
                Err(f) => Err::<Seq<char>, Failure>(f),
            },
    {
        match self.get_doc(path) {
            Ok(node) => Ok(String::from_str(node.value_name())),
            Err(e) => Err(e),
        }
    }

    /// The name of a value's type.
    pub fn value_name(value: &Node) -> (r: &'static str)
        ensures
            r@ == kind_name(value@),
    {
        value.value_name()
    }

    /// Adds `value` as a new member wherever the path names a member that an
    /// object lacks. Tells whether any object took it.
    pub fn add_value(&mut self, path: &str, value: Node) -> (r: Result<bool, Error>)
        ensures
            match parsed(path@) {
                None => r is Err && r->Err_0@ == malformed() && final(self)@ == old(self)@,
                Some(p) => match added(old(self)@, p, value@) {
                    Ok((done, doc)) => r == Ok::<bool, Error>(done) && final(self)@ == doc,
                    Err(f) => r is Err && r->Err_0@ == f && final(self)@ == old(self)@,
                },
            },
            old(self).wf() && well_formed(value@) ==> final(self).wf(),
    {
        proof {
            if old(self).wf() && well_formed(value@) && parsed(path@) is Some {
                lemma_set_well_formed(old(self)@, parsed(path@)->0, value@, SetOptions::Always);
            }
        }
        let mut segs = match parse_path(path) {
            Ok(segs) => segs,
            Err(e) => {
                return Err(e);
            },
        };
        let ghost p = steps(segs@);
        let key = match segs.pop() {
            Some(Segment::Key(key)) => key,
            _ => {
                return Err(Error::new(ErrorKind::Path, "Err: wrong static path"));
            },
        };
        proof {
            assert(steps(segs@) =~= p.drop_last());
            assert(steps(segs@).skip(0) =~= steps(segs@));
        }
        let nodes = resolve(&self.data, &segs);
        let ghost ts = ref_views(nodes@);
        let mut done = false;
        let mut i: usize = 0;
        while i < nodes.len()
            invariant
                i <= nodes.len(),
                ts == ref_views(nodes@),
                done == exists|k: int| 0 <= k < i && lacks_member(#[trigger] ts[k], key@),
            decreases nodes.len() - i,
        {
            proof {
                let here = lacks_member(ts[i as int], key@);
                if exists|k: int| 0 <= k < i && lacks_member(#[trigger] ts[k], key@) {
                    let k = choose|k: int| 0 <= k < i && lacks_member(#[trigger] ts[k], key@);
                    assert(0 <= k < i + 1 && lacks_member(ts[k], key@));
                }
                if here {
                    assert(0 <= i < i + 1 && lacks_member(ts[i as int], key@));
                }
            }
            match nodes[i] {
                Node::Object(members) => {
                    proof {
                        lemma_object_view(*members);
                    }
                    if !has_member(members, &key) {
                        done = true;
                    }
                },
                _ => {},
            }
            i += 1;
        }
        proof {
            assert(ts.len() == nodes.len());
        }
        let (tree, _) = rewrite(&self.data, &segs, 0, &Edit::Insert(&key, &value), 0);
        match tree {
            Some(t) => {
                self.data = t;
                Ok(done)
            },
            None => Ok(false),
        }
    }

    /// Sets the value at a path to what the payload holds. At the root the
    /// payload becomes the document. Elsewhere it replaces every match, or,
    /// where nothing matches, becomes a new member. `NotExists` keeps what
    /// exists, `AlreadyExists` adds nothing. Tells whether anything was set.
    pub fn set_value(&mut self, data: &str, path: &str, option: &SetOptions, format: Format) -> (r:
        Result<bool, Error>)
        ensures
            match payload(data@, format) {
                Err(f) => r is Err && r->Err_0@ == f && final(self)@ == old(self)@,
                Ok(v) => match parsed(path@) {
                    None => r is Err && r->Err_0@ == malformed() && final(self)@ == old(self)@,
                    Some(p) => match set_at(old(self)@, p, v, *option) {
                        Ok((done, doc)) => r == Ok::<bool, Error>(done) && final(self)@ == doc,
                        Err(f) => r is Err && r->Err_0@ == f && final(self)@ == old(self)@,
                    },
                },
            },
            old(self).wf() ==> final(self).wf(),
    {

        let json = match RedisJSON::parse_str(data, format) {
            Ok(json) => json,
            Err(e) => {
                return Err(e);
            },
        };
        let segs = match parse_path(path) {
            Ok(segs) => segs,
            Err(e) => {
                return Err(e);
            },
        };
        proof {
            if old(self).wf() {
                lemma_set_well_formed(old(self)@, steps(segs@), json@, *option);
            }
        }
        if segs.len() == 0 {
            return match option {
                SetOptions::NotExists => Ok(false),
                _ => {
                    self.data = json;
                    Ok(true)
                },
            };
        }
        let keep = match option {
            SetOptions::NotExists => true,
            _ => false,
        };
        if !keep {
            let found = resolve(&self.data, &segs).len();
            proof {
                assert(steps(segs@).skip(0) =~= steps(segs@));
            }
            if found > 0 {
                let (tree, _) = rewrite(&self.data, &segs, 0, &Edit::Put(&json), 0);
                return match tree {
                    Some(t) => {
                        self.data = t;
                        Ok(true)
                    },
                    None => Ok(false),
                };
            }
        }
        match option {
            SetOptions::AlreadyExists => Ok(false),
            _ => self.add_value(path, json),
        }
    }

    /// The length in bytes of the string that the path matches first.
    pub fn str_len(&self, path: &str) -> (r: Result<usize, Error>)
        ensures
            match found(self@, path@) {
                Err(f) => r is Err && r->Err_0@ == f,
                Ok(Json::String(s)) => r == Ok::<usize, Error>(byte_len(s) as usize) && byte_len(s)
                    <= usize::MAX,
                Ok(j) => r is Err && r->Err_0@ == mismatch("string"@, kind_name(j)),
            },
    {
        match self.get_doc(path) {
            Err(e) => Err(e),
            Ok(Node::String(s)) => Ok(byte_length(s.as_str())),
            Ok(other) => Err(type_mismatch("string", other.value_name())),
        }
    }

    /// The number of items of the array that the path matches first.
    pub fn arr_len(&self, path: &str) -> (r: Result<usize, Error>)
        ensures
            match found(self@, path@) {
                Err(f) => r is Err && r->Err_0@ == f,
                Ok(Json::Array(xs)) => r == Ok::<usize, Error>(xs.len() as usize) && xs.len()
                    <= usize::MAX,
                Ok(j) => r is Err && r->Err_0@ == mismatch("array"@, kind_name(j)),
            },
    {
        match self.get_doc(path) {
            Err(e) => Err(e),
            Ok(Node::Array(xs)) => {
                proof {
                    lemma_array_view(*xs);
                }
                Ok(xs.len())
            },
            Ok(other) => Err(type_mismatch("array", other.value_name())),
        }
    }

    /// The number of members of the object that the path matches first.
    pub fn obj_len(&self, path: &str) -> (r: Result<usize, Error>)
        ensures
            match found(self@, path@) {
                Err(f) => r is Err && r->Err_0@ == f,
                Ok(Json::Object(ms)) => r == Ok::<usize, Error>(ms.len() as usize) && ms.len()
                    <= usize::MAX,
                Ok(j) => r is Err && r->Err_0@ == mismatch("object"@, kind_name(j)),
            },
    {
        match self.get_doc(path) {
            Err(e) => Err(e),
            Ok(Node::Object(ms)) => {
                proof {
                    lemma_object_view(*ms);
                }
                Ok(ms.len())
            },
            Ok(other) => Err(type_mismatch("object", other.value_name())),
        }
    }

    /// The names of the members of the object that the path matches first,
    /// in order.
    pub fn obj_keys<'a>(&'a self, path: &'a str) -> (r: Result<Vec<&'a String>, Error>)
        ensures
            match found(self@, path@) {
                Err(f) => r is Err && r->Err_0@ == f,
                Ok(Json::Object(ms)) => r is Ok && ref_texts(r->Ok_0@) == member_names(ms),
                Ok(j) => r is Err && r->Err_0@ == mismatch("object"@, kind_name(j)),
            },
    {
        match self.get_doc(path) {
            Err(e) => Err(e),
            Ok(Node::Object(ms)) => {
                proof {
                    lemma_object_view(*ms);
                }
                let mut out: Vec<&'a String> = Vec::new();
                let mut i: usize = 0;
                while i < ms.len()
                    invariant
                        i <= ms.len(),
                        out.len() == i,
                        forall|k: int| 0 <= k < i ==> (*out[k])@ == ms[k].0@,
                    decreases ms.len() - i,
                {
                    out.push(&ms[i].0);
                    i += 1;
                }
                proof {
                    assert(ref_texts(out@) =~= member_names(member_views(ms@)));
                }
                Ok(out)
            },
            Ok(other) => Err(type_mismatch("object", other.value_name())),
        }
    }

    /// The position of the first item equal to the scalar that `scalar`
    /// spells, among the items from `start` to `end` of the array that the
    /// path matches first; `-1` where there is none, where the needle is an
    /// array or an object, and where the match is no array.
    pub fn arr_index(&self, path: &str, scalar: &str, start: usize, end: usize) -> (r: Result<
        i64,
        Error,
    >)
        ensures
            match found(self@, path@) {
                Err(f) => r is Err && r->Err_0@ == f,
                Ok(Json::Array(xs)) => match json_decoded(scalar@) {
                    Err(m) => r is Err && r->Err_0@ == unreadable(m),
                    Ok(needle) => if is_scalar(needle) && (exists|i: int|
                        hit(xs, needle, start as int, end as int, i)) {
                        (exists|i: int|
                            least_hit(xs, needle, start as int, end as int, i) && index_reply(r, i))
                    } else {
                        r is Ok && r->Ok_0 == -1
                    },
                },
                Ok(_) => r is Ok && r->Ok_0 == -1,
            },
    {
        let xs = match self.get_doc(path) {
            Err(e) => {
                return Err(e);
            },
            Ok(Node::Array(xs)) => xs,
            Ok(_) => {
                return Ok(-1);
            },
        };
        proof {
            lemma_array_view(*xs);
        }
        let needle = match json_decode(scalar) {
            Ok(needle) => needle,
            Err(m) => {
                return Err(Error { kind: ErrorKind::Parse, msg: m });
            },
        };
        let len = xs.len();
        if len == 0 {
            return Ok(-1);
        }
        let last: usize = if end > len - 1 {
            len - 1
        } else {
            end
        };
        let first: usize = if start > last {
            last
        } else {
            start
        };
        let ghost items = views(xs@);
        let mut i: usize = first;
        while i <= last
            invariant
                first <= i <= last + 1,
                last < len,
                len == xs.len(),
                items == views(xs@),
                first == search_start(len as int, start as int, end as int),
                last == search_end(len as int, end as int),
                found(self@, path@) == Ok::<Json, Failure>(Json::Array(items)),
                json_decoded(scalar@) == Ok::<Json, Seq<char>>(needle@),
                forall|k: int| first <= k < i ==> !(is_scalar(needle@) && xs[k]@ == needle@),
            decreases last + 1 - i,
        {
            if xs[i].matches_scalar(&needle) {
                proof {
                    assert(hit(items, needle@, start as int, end as int, i as int));
                    assert forall|k: int|
                        hit(items, needle@, start as int, end as int, k) implies i <= k by {
                        if k < i {
                            assert(items[k] == xs[k]@);
                        }
                    }
                    assert(least_hit(items, needle@, start as int, end as int, i as int));
                }
                let reply = if i as u64 <= i64::MAX as u64 {
                    Ok(i as i64)
                } else {
                    Err(Error::new(ErrorKind::Range, "ERR index out of bounds"))
                };
                proof {
                    assert(least_hit(items, needle@, start as int, end as int, i as int)
                        && index_reply(reply, i as int));
                    assert(hit(
                        found(self@, path@)->Ok_0->Array_0,
                        json_decoded(scalar@)->Ok_0,
                        start as int,
                        end as int,
                        i as int,
                    ));
                    assert(least_hit(
                        found(self@, path@)->Ok_0->Array_0,
                        json_decoded(scalar@)->Ok_0,
                        start as int,
                        end as int,
                        i as int,
                    ));
                }
                return reply;
            }
            i += 1;
        }
        proof {
            assert forall|k: int|
                !(is_scalar(needle@) && hit(items, needle@, start as int, end as int, k)) by {
                if first <= k <= last {
                    assert(items[k] == xs[k]@);
                }
            }
        }
        Ok(-1)
    }

    /// A listing of the first value that each path matches: an object text
    /// with one entry for each path, in order. The paths are used up.
    pub fn to_json(&self, paths: &mut Vec<String>) -> (r: Result<String, Error>)
        ensures
            r is Ok,
            r->Ok_0@ == listing(self@, texts(old(paths)@)),
            final(paths)@.len() == 0,
    {
        let ghost all = texts(paths@);
        let mut result = String::from_str("{");
        let mut i: usize = 0;
        proof {
            assert(all.take(0) =~= Seq::<Seq<char>>::empty());
            assert("{"@ + listed(self@, all.take(0)) =~= "{"@);
        }
        while i < paths.len()
            invariant
                i <= paths.len(),
                paths@ == old(paths)@,
                all == texts(paths@),
                result@ == "{"@ + listed(self@, all.take(i as int)),
            decreases paths.len() - i,
        {
            let ghost body = listed(self@, all.take(i as int));
            proof {
                assert(all.take(i + 1).drop_last() =~= all.take(i as int));
                assert(all.take(i + 1).last() == paths[i as int]@);
                assert(all.take(i + 1).len() == i + 1);
            }
            let path = paths[i].as_str();
            let text = match self.get_doc(path) {
                Ok(node) => encode(node),
                Err(_) => encode(&Node::Null),
            };
            let ghost entry = "\""@ + path@ + "\":"@ + text@;
            if i > 0 {
                result.append(",");
            }
            result.append("\"");
            result.append(path);
            result.append("\":");
            result.append(text.as_str());
            proof {
                assert(entry == entry_text(self@, path@));
                if i == 0 {
                    assert(body =~= Seq::<char>::empty());
                    assert(result@ =~= "{"@ + entry);
                } else {
                    assert(result@ =~= "{"@ + (body + ","@ + entry));
                }
            }
            i += 1;
        }
        proof {
            assert(all.take(paths.len() as int) =~= all);
        }
        paths.clear();
        result.append("}");
        Ok(result)
    }

    /// Removes every value that the path matches, and gives the number of
    /// those that were not null. A malformed path changes nothing.
    pub fn delete_path(&mut self, path: &str) -> (r: Result<usize, Error>)
        ensures
            match parsed(path@) {
                None => r is Err && r->Err_0@ == malformed() && final(self)@ == old(self)@,
                Some(p) => r == Ok::<usize, Error>(non_null(targets(old(self)@, p)) as usize)
                    && non_null(targets(old(self)@, p)) <= usize::MAX && final(self)@ == pruned(
                    old(self)@,
                    p,
                ),
            },
            old(self).wf() ==> final(self).wf(),
    {
        proof {
            if old(self).wf() && parsed(path@) is Some {
                lemma_pruned_well_formed(old(self)@, parsed(path@)->0);
            }
        }
        let segs = match parse_path(path) {
            Ok(segs) => segs,
            Err(e) => {
                return Err(e);
            },
        };
        let nodes = resolve(&self.data, &segs);
        let deleted = count_non_null(&nodes);
        proof {
            assert(steps(segs@).skip(0) =~= steps(segs@));
            assert(ref_views(nodes@).len() == nodes.len());
        }
        let (tree, _) = rewrite(&self.data, &segs, 0, &Edit::Remove, 0);
        self.data =
        match tree {
            Some(t) => t,
            None => Node::Null,
        };
        Ok(deleted)
    }

    /// Applies an update to every value that the path matches. Where every
    /// match takes it, each is replaced and the last new value is returned,
    /// or null where nothing matched. Where any match fails, the document
    /// stays as it was and the failures are reported as one.
    pub fn value_op(&mut self, path: &str, update: &Update) -> (r: Result<Node, Error>)
        ensures
            match parsed(path@) {
                None => r is Err && r->Err_0@ == malformed() && final(self)@ == old(self)@,
                Some(p) => result_view(r) == updated(old(self)@, p, update@).0 && final(self)@
                    == updated(old(self)@, p, update@).1,
            },
            old(self).wf() && update_well_formed(update@) ==> final(self).wf(),
    {
        let segs = match parse_path(path) {
            Ok(segs) => segs,
            Err(e) => {
                return Err(e);
            },
        };
        proof {
            if old(self).wf() && update_well_formed(update@) {
                lemma_updated_well_formed(old(self)@, steps(segs@), update@);
            }
        }
        let nodes = resolve(&self.data, &segs);
        let ghost ts = ref_views(nodes@);
        let ghost outs = outcomes(ts, update@);
        let mut news: Vec<Node> = Vec::new();
        let mut errors: Vec<Error> = Vec::new();
        let mut i: usize = 0;
        proof {
            assert(outs.take(0) =~= Seq::<Result<Json, Failure>>::empty());
        }
        while i < nodes.len()
            invariant
                i <= nodes.len(),
                ts == ref_views(nodes@),
                outs == outcomes(ts, update@),
                views(news@) == successes(outs.take(i as int)),
                error_views(errors@) == failures(outs.take(i as int)),
            decreases nodes.len() - i,
        {
            let ghost old_news = news@;
            let ghost old_errors = errors@;
            proof {
                assert(outs.take(i + 1).drop_last() =~= outs.take(i as int));
                assert(outs.take(i + 1).last() == outcome(update@, i as int, ts[i as int]));
            }
            match update.apply(i, nodes[i]) {
                Ok(v) => {
                    proof {
                        assert(views(old_news.push(v)) =~= views(old_news).push(v@));
                    }
                    news.push(v);
                },
                Err(e) => {
                    proof {
                        assert(error_views(old_errors.push(e)) =~= error_views(old_errors).push(
                            e@,
                        ));
                    }
                    errors.push(e);
                },
            }
            i += 1;
        }
        proof {
            assert(outs.take(nodes.len() as int) =~= outs);
            assert(steps(segs@).skip(0) =~= steps(segs@));
            assert(ts.len() == nodes.len());
        }
        if errors.len() > 0 {
            return Err(combine(&errors));
        }
        let (tree, _) = rewrite(&self.data, &segs, 0, &Edit::Replace(&news), 0);
        let last = if news.len() == 0 {
            Node::Null
        } else {
            copy_of(&news[news.len() - 1])
        };
        match tree {
            Some(t) => {
                self.data = t;
            },
            None => {},
        }
        Ok(last)
    }
}

/// What the host has read for a key: the text of the current encoding, or
/// the tree that the decoder of the legacy encoding has built.
#[derive(Debug)]
pub enum Stored {
    Text(String),
    Legacy(Node),
}

/// The version of the encoding that documents are saved in.
pub const JSON_TYPE_ENCODING_VERSION: i32 = 2;

/// The failure for an encoding that cannot be loaded.
pub open spec fn unloadable() -> Failure {
    Failure { kind: ErrorKind::Parse, msg: "Can't load old RedisJSON RDB"@ }
}

/// The document that a stored record holds. Version 2 holds the text of
/// the root, version 0 a legacy tree. A record that holds the one under the
/// version of the other cannot be loaded.
pub open spec fn loaded(stored: Stored, encver: int) -> Result<Json, Failure> {
    match stored {
        Stored::Text(text) => if encver == 2 {
            payload(text@, Format::JSON)
        } else {
            Err(unloadable())
        },
        Stored::Legacy(tree) => if encver == 0 {
            Ok(tree@)
        } else {
            Err(unloadable())
        },
    }
}

/// The document that a stored record of the given encoding version holds.
/// There are two versions, 0 and 2; a record of any other cannot be loaded
/// at all, and the host gives it up before it comes here.
pub fn json_rdb_load(stored: Stored, encver: i32) -> (r: Result<RedisJSON, Error>)
    requires
        encver == 0 || encver == 2,
    ensures
        match loaded(stored, encver as int) {
            Ok(j) => r is Ok && r->Ok_0@ == j,
            Err(f) => r is Err && r->Err_0@ == f,
        },
        r is Ok && stored is Text ==> r->Ok_0.wf(),
        r is Ok && stored is Legacy ==> r->Ok_0.wf() == well_formed(stored->Legacy_0@),
{
    match stored {
        Stored::Text(text) => {
            if encver == 2 {
                RedisJSON::from_str(text.as_str(), Format::JSON)
            } else {
                Err(Error::new(ErrorKind::Parse, "Can't load old RedisJSON RDB"))
            }
        },
        Stored::Legacy(tree) => {
            if encver == 0 {
                Ok(RedisJSON::from_value(tree))
            } else {
                Err(Error::new(ErrorKind::Parse, "Can't load old RedisJSON RDB"))
            }
        },
    }
}

/// The text that a document is saved as, in the encoding of version 2: the
/// text of its root.
pub fn json_rdb_save(doc: &RedisJSON) -> (r: Result<String, Error>)
    ensures
        r is Ok,
        r->Ok_0@ == text_of(doc@),
{
    Ok(encode(doc.root()))
}

} // verus!
