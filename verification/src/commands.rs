//! The commands: what each does to the document under a key, and what it
//! replies. A key that holds no document is `None`.

use crate::backwards_compat_path;
use crate::codec::{encode, json_decode, json_decoded};
use crate::compat_path;
use crate::engine::{ref_views, targets};
use crate::error::{Error, ErrorKind, Failure, mismatch, no_match, type_mismatch};
use crate::ops::{
    NumResult, Update, UpdateModel, arr_pop_item, arr_pop_value, num_views, result_view,
    update_well_formed,
};
use crate::path::{malformed, parsed};
use crate::redisjson::{
    Format, RedisJSON, SetOptions, byte_len, byte_length, found, hit, index_reply, least_hit,
    matched,
    member_names, non_null, payload, pruned, set_at, text_of, text_view, texts, unreadable,
    updated,
};
use crate::value::{
    Json, Node, Num, Number, all_well_formed, is_scalar, kind_name, lemma_array_view, views,
};
use vstd::prelude::*;
use vstd::string::StrSliceExecFns;

verus! {

/// The model of the content of a key.
pub open spec fn slot_view(slot: Option<RedisJSON>) -> Option<Json> {
    match slot {
        Some(doc) => Some(doc@),
        None => None,
    }
}

/// The model of the content of a key that is only read.
pub open spec fn ref_slot_view(slot: Option<&RedisJSON>) -> Option<Json> {
    match slot {
        Some(doc) => Some(doc@),
        None => None,
    }
}

/// Whether the document under a key, if there is one, is well formed.
pub open spec fn slot_wf(slot: Option<RedisJSON>) -> bool {
    match slot {
        Some(doc) => doc.wf(),
        None => true,
    }
}

/// The failure for a command that needs a document under a key that holds
/// none.
pub open spec fn no_key() -> Failure {
    Failure {
        kind: ErrorKind::Key,
        msg: "ERR could not perform this operation on a key that doesn't exist"@,
    }
}

/// The failure for a new document that is not set at the root.
pub open spec fn not_at_root() -> Failure {
    Failure { kind: ErrorKind::Key, msg: "ERR new objects must be created at the root"@ }
}

/// Whether a path text is the root path.
fn is_root(path: &String) -> (r: bool)
    ensures
        r == (path@ == seq!['$']),
{
    let s = path.as_str();
    let r = s.unicode_len() == 1 && s.get_char(0) == '$';
    proof {
        if r {
            assert(path@ =~= seq!['$']);
        }
    }
    r
}

/// What a delete replies and leaves under the key: at the root the key is
/// emptied and `1` is replied; elsewhere every match is removed and the
/// number of those that were not null is replied; a key that holds nothing
/// gives `0`.
pub open spec fn del_reply(slot: Option<Json>, path: Seq<char>) -> (
    Result<nat, Failure>,
    Option<Json>,
) {
    match slot {
        None => (Ok(0), None),
        Some(doc) => if path == seq!['$'] {
            (Ok(1), None)
        } else {
            match parsed(path) {
                None => (Err(malformed()), slot),
                Some(p) => (Ok(non_null(targets(doc, p))), Some(pruned(doc, p))),
            }
        },
    }
}

/// Deletes what the path matches: at the root the whole key, and elsewhere
/// every match. Replies the number of values removed that were not null;
/// `1` for the key, `0` where the key holds nothing.
pub fn json_del(slot: &mut Option<RedisJSON>, path: String) -> (r: Result<usize, Error>)
    ensures
        match del_reply(slot_view(*old(slot)), compat_path(path@)).0 {
            Ok(n) => r == Ok::<usize, Error>(n as usize) && n <= usize::MAX,
            Err(f) => r is Err && r->Err_0@ == f,
        },
        slot_view(*final(slot)) == del_reply(slot_view(*old(slot)), compat_path(path@)).1,
        slot_wf(*old(slot)) ==> slot_wf(*final(slot)),
{
    let path = backwards_compat_path(path);
    match slot {
        None => Ok(0),
        Some(doc) => {
            if is_root(&path) {
                *slot = None;
                Ok(1)
            } else {
                doc.delete_path(path.as_str())
            }
        },
    }
}

/// The guard that an optional guard word stands for.
pub open spec fn guard(option: Option<crate::SetOptions>) -> SetOptions {
    match option {
        Some(crate::SetOptions::NotExists) => SetOptions::NotExists,
        Some(crate::SetOptions::AlreadyExists) => SetOptions::AlreadyExists,
        None => SetOptions::Always,
    }
}

/// What a set does: whether anything was set, and what the key holds then.
/// A key that holds nothing takes a new document at the root only, and none
/// under the guard `AlreadyExists`.
pub open spec fn set_reply(
    slot: Option<Json>,
    path: Seq<char>,
    value: Seq<char>,
    option: Option<crate::SetOptions>,
    format: Format,
) -> (Result<bool, Failure>, Option<Json>) {
    match slot {
        Some(doc) => match payload(value, format) {
            Err(f) => (Err(f), slot),
            Ok(v) => match parsed(path) {
                None => (Err(malformed()), slot),
                Some(p) => match set_at(doc, p, v, guard(option)) {
                    Ok((done, after)) => (Ok(done), Some(after)),
                    Err(f) => (Err(f), slot),
                },
            },
        },
        None => if option == Some(crate::SetOptions::AlreadyExists) {
            (Ok(false), None)
        } else {
            match payload(value, format) {
                Err(f) => (Err(f), None),
                Ok(v) => if path == seq!['$'] {
                    (Ok(true), Some(v))
                } else {
                    (Err(not_at_root()), None)
                },
            }
        },
    }
}

/// The model of a flag or a failure.
pub open spec fn flag_view(r: Result<bool, Error>) -> Result<bool, Failure> {
    match r {
        Ok(b) => Ok(b),
        Err(e) => Err(e@),
    }
}

/// Sets the value at a path to what the payload holds. Replies `true`
/// where something was set, `false` where a guard held it back.
pub fn json_set(
    slot: &mut Option<RedisJSON>,
    path: String,
    value: &str,
    option: Option<crate::SetOptions>,
    format: Format,
) -> (r: Result<bool, Error>)
    ensures
        flag_view(r) == set_reply(
            slot_view(*old(slot)),
            compat_path(path@),
            value@,
            option,
            format,
        ).0,
        slot_view(*final(slot)) == set_reply(
            slot_view(*old(slot)),
            compat_path(path@),
            value@,
            option,
            format,
        ).1,
        slot_wf(*old(slot)) ==> slot_wf(*final(slot)),
{
    let path = backwards_compat_path(path);
    match slot {
        Some(doc) => {
            let option = match option {
                Some(crate::SetOptions::NotExists) => SetOptions::NotExists,
                Some(crate::SetOptions::AlreadyExists) => SetOptions::AlreadyExists,
                None => SetOptions::Always,
            };
            doc.set_value(value, path.as_str(), &option, format)
        },
        None => {
            match option {
                Some(crate::SetOptions::AlreadyExists) => {
                    return Ok(false);
                },
                _ => {},
            }
            let doc = match RedisJSON::from_str(value, format) {
                Ok(doc) => doc,
                Err(e) => {
                    return Err(e);
                },
            };
            if is_root(&path) {
                *slot = Some(doc);
                Ok(true)
            } else {
                Err(Error::new(ErrorKind::Key, "ERR new objects must be created at the root"))
            }
        },
    }
}

/// The text that a get replies: that of the first match, or nothing where
/// the key holds nothing or the path matches nothing.
pub open spec fn get_reply(slot: Option<Json>, path: Seq<char>) -> Result<
    Option<Seq<char>>,
    Failure,
> {
    match slot {
        None => Ok(None),
        Some(doc) => match matched(doc, path) {
            Err(f) => Err(f),
            Ok(ts) => if ts.len() == 0 {
                Ok(None)
            } else {
                Ok(Some(text_of(ts[0])))
            },
        },
    }
}

/// The model of an optional text or a failure.
pub open spec fn opt_text_view(r: Result<Option<String>, Error>) -> Result<
    Option<Seq<char>>,
    Failure,
> {
    match r {
        Ok(Some(s)) => Ok(Some(s@)),
        Ok(None) => Ok(None),
        Err(e) => Err(e@),
    }
}

/// The text of the first value that the path matches in a document.
fn get_text(doc: &RedisJSON, path: &str) -> (r: Result<Option<String>, Error>)
    ensures
        opt_text_view(r) == get_reply(Some(doc@), path@),
{
    let nodes = match doc.matches(path) {
        Ok(nodes) => nodes,
        Err(e) => {
            return Err(e);
        },
    };
    if nodes.len() == 0 {
        return Ok(None);
    }
    Ok(Some(encode(nodes[0])))
}

/// Replies the text of the first value that the path matches.
pub fn json_get(slot: Option<&RedisJSON>, path: String) -> (r: Result<Option<String>, Error>)
    ensures
        opt_text_view(r) == get_reply(ref_slot_view(slot), compat_path(path@)),
{
    let path = backwards_compat_path(path);
    match slot {
        None => Ok(None),
        Some(doc) => get_text(doc, path.as_str()),
    }
}

/// The models of the contents of several keys.
pub open spec fn slot_views(slots: Seq<Option<&RedisJSON>>) -> Seq<Option<Json>> {
    Seq::new(slots.len(), |i: int| ref_slot_view(slots[i]))
}

/// What a get on several keys replies: one reply for each key, or the
/// first failure.
pub open spec fn mget_reply(slots: Seq<Option<Json>>, path: Seq<char>) -> Result<
    Seq<Option<Seq<char>>>,
    Failure,
>
    decreases slots.len(),
{
    if slots.len() == 0 {
        Ok(Seq::empty())
    } else {
        match mget_reply(slots.drop_last(), path) {
            Err(f) => Err(f),
            Ok(head) => match get_reply(slots.last(), path) {
                Err(f) => Err(f),
                Ok(t) => Ok(head.push(t)),
            },
        }
    }
}

/// A failure among the first keys is the failure of all.
pub proof fn lemma_mget_fails(slots: Seq<Option<Json>>, path: Seq<char>, n: int)
    requires
        0 <= n <= slots.len(),
        mget_reply(slots.take(n), path) is Err,
    ensures
        mget_reply(slots, path) == mget_reply(slots.take(n), path),
    decreases slots.len() - n,
{
    if n == slots.len() {
        assert(slots.take(n) =~= slots);
    } else {
        assert(slots.take(n + 1).drop_last() =~= slots.take(n));
        lemma_mget_fails(slots, path, n + 1);
    }
}

/// The models of a sequence of optional texts, one for one.
pub open spec fn opt_texts(items: Seq<Option<String>>) -> Seq<Option<Seq<char>>> {
    Seq::new(
        items.len(),
        |i: int|
            match items[i] {
                Some(s) => Some(s@),
                None => None,
            },
    )
}

/// Replies, for each key, the text of the first value that the path
/// matches under it.
pub fn json_mget(slots: &Vec<Option<&RedisJSON>>, path: String) -> (r: Result<
    Vec<Option<String>>,
    Error,
>)
    ensures
        match mget_reply(slot_views(slots@), compat_path(path@)) {
            Ok(ts) => r is Ok && opt_texts(r->Ok_0@) == ts,
            Err(f) => r is Err && r->Err_0@ == f,
        },
{
    let full = backwards_compat_path(path);
    let ghost all = slot_views(slots@);
    let mut out: Vec<Option<String>> = Vec::new();
    let mut i: usize = 0;
    proof {
        assert(all.take(0) =~= Seq::<Option<Json>>::empty());
        assert(opt_texts(out@) =~= Seq::<Option<Seq<char>>>::empty());
    }
    while i < slots.len()
        invariant
            i <= slots.len(),
            all == slot_views(slots@),
            full@ == compat_path(path@),
            mget_reply(all.take(i as int), full@) == Ok::<Seq<Option<Seq<char>>>, Failure>(
                opt_texts(out@),
            ),
        decreases slots.len() - i,
    {
        proof {
            assert(all.take(i + 1).drop_last() =~= all.take(i as int));
            assert(all.take(i + 1).last() == ref_slot_view(slots[i as int]));
        }
        let ghost prev = out@;
        let reply = match slots[i] {
            None => Ok(None),
            Some(doc) => get_text(doc, full.as_str()),
        };
        match reply {
            Ok(t) => {
                out.push(t);
                proof {
                    assert(opt_texts(out@) =~= opt_texts(prev).push(
                        match t {
                            Some(s) => Some(s@),
                            None => None,
                        },
                    ));
                }
            },
            Err(e) => {
                proof {
                    assert(mget_reply(all.take(i + 1), full@) == Err::<
                        Seq<Option<Seq<char>>>,
                        Failure,
                    >(e@));
                    lemma_mget_fails(all, full@, i + 1);
                }
                return Err(e);
            },
        }
        i += 1;
    }
    proof {
        assert(all.take(slots.len() as int) =~= all);
    }
    Ok(out)
}

/// Replies the name of the type of the first value that the path matches,
/// or nothing where the key holds nothing.
pub fn json_type(slot: Option<&RedisJSON>, path: String) -> (r: Result<Option<String>, Error>)
    ensures
        opt_text_view(r) == match ref_slot_view(slot) {
            None => Ok::<Option<Seq<char>>, Failure>(None),
            Some(doc) => match found(doc, compat_path(path@)) {
                Ok(j) => Ok(Some(kind_name(j))),
                Err(f) => Err(f),
            },
        },
{
    let path = backwards_compat_path(path);
    match slot {
        None => Ok(None),
        Some(doc) => match doc.get_type(path.as_str()) {
            Ok(s) => Ok(Some(s)),
            Err(e) => Err(e),
        },
    }
}

/// Replies the length in bytes of the string that the path matches first,
/// or nothing where the key holds nothing.
pub fn json_str_len(slot: Option<&RedisJSON>, path: String) -> (r: Result<Option<usize>, Error>)
    ensures
        match ref_slot_view(slot) {
            None => r == Ok::<Option<usize>, Error>(None),
            Some(doc) => match found(doc, compat_path(path@)) {
                Err(f) => r is Err && r->Err_0@ == f,
                Ok(Json::String(s)) => r == Ok::<Option<usize>, Error>(Some(byte_len(s) as usize))
                    && byte_len(s) <= usize::MAX,
                Ok(j) => r is Err && r->Err_0@ == mismatch("string"@, kind_name(j)),
            },
        },
{
    let path = backwards_compat_path(path);
    match slot {
        None => Ok(None),
        Some(doc) => match doc.str_len(path.as_str()) {
            Ok(n) => Ok(Some(n)),
            Err(e) => Err(e),
        },
    }
}

/// Replies the number of items of the array that the path matches first,
/// or nothing where the key holds nothing.
pub fn json_arr_len(slot: Option<&RedisJSON>, path: String) -> (r: Result<Option<usize>, Error>)
    ensures
        match ref_slot_view(slot) {
            None => r == Ok::<Option<usize>, Error>(None),
            Some(doc) => match found(doc, compat_path(path@)) {
                Err(f) => r is Err && r->Err_0@ == f,
                Ok(Json::Array(xs)) => r == Ok::<Option<usize>, Error>(Some(xs.len() as usize))
                    && xs.len() <= usize::MAX,
                Ok(j) => r is Err && r->Err_0@ == mismatch("array"@, kind_name(j)),
            },
        },
{
    let path = backwards_compat_path(path);
    match slot {
        None => Ok(None),
        Some(doc) => match doc.arr_len(path.as_str()) {
            Ok(n) => Ok(Some(n)),
            Err(e) => Err(e),
        },
    }
}

/// Replies the number of members of the object that the path matches
/// first, or nothing where the key holds nothing.
pub fn json_obj_len(slot: Option<&RedisJSON>, path: String) -> (r: Result<Option<usize>, Error>)
    ensures
        match ref_slot_view(slot) {
            None => r == Ok::<Option<usize>, Error>(None),
            Some(doc) => match found(doc, compat_path(path@)) {
                Err(f) => r is Err && r->Err_0@ == f,
                Ok(Json::Object(ms)) => r == Ok::<Option<usize>, Error>(Some(ms.len() as usize))
                    && ms.len() <= usize::MAX,
                Ok(j) => r is Err && r->Err_0@ == mismatch("object"@, kind_name(j)),
            },
        },
{
    let path = backwards_compat_path(path);
    match slot {
        None => Ok(None),
        Some(doc) => match doc.obj_len(path.as_str()) {
            Ok(n) => Ok(Some(n)),
            Err(e) => Err(e),
        },
    }
}

/// Replies the names of the members of the object that the path matches
/// first, or nothing where the key holds nothing.
pub fn json_obj_keys(slot: Option<&RedisJSON>, path: String) -> (r: Result<
    Option<Vec<String>>,
    Error,
>)
    ensures
        match ref_slot_view(slot) {
            None => r is Ok && r->Ok_0 is None,
            Some(doc) => match found(doc, compat_path(path@)) {
                Err(f) => r is Err && r->Err_0@ == f,
                Ok(Json::Object(ms)) => r is Ok && r->Ok_0 is Some && texts(r->Ok_0->0@)
                    == member_names(ms),
                Ok(j) => r is Err && r->Err_0@ == mismatch("object"@, kind_name(j)),
            },
        },
{
    let path = backwards_compat_path(path);
    match slot {
        None => Ok(None),
        Some(doc) => match doc.obj_keys(path.as_str()) {
            Ok(keys) => {
                let mut out: Vec<String> = Vec::new();
                let mut i: usize = 0;
                while i < keys.len()
                    invariant
                        i <= keys.len(),
                        out.len() == i,
                        forall|k: int| 0 <= k < i ==> out[k]@ == (*keys[k])@,
                    decreases keys.len() - i,
                {
                    out.push(keys[i].clone());
                    i += 1;
                }
                proof {
                    assert(texts(out@) =~= crate::redisjson::ref_texts(keys@));
                }
                Ok(Some(out))
            },
            Err(e) => Err(e),
        },
    }
}

/// Replies the position of the first item equal to the scalar that
/// `scalar` spells, among the items from `start` to `end` of the array that
/// the path matches first; `-1` where there is none, where the needle is an
/// array or an object, where the match is no array, and where the key holds
/// nothing.
pub fn json_arr_index(
    slot: Option<&RedisJSON>,
    path: String,
    scalar: &str,
    start: usize,
    end: usize,
) -> (r: Result<i64, Error>)
    ensures
        match ref_slot_view(slot) {
            None => r is Ok && r->Ok_0 == -1,
            Some(doc) => match found(doc, compat_path(path@)) {
                Err(f) => r is Err && r->Err_0@ == f,
                Ok(Json::Array(xs)) => match json_decoded(scalar@) {
                    Err(m) => r is Err && r->Err_0@ == unreadable(m),
                    Ok(needle) => if is_scalar(needle) && (exists|i: int|
                        hit(xs, needle, start as int, end as int, i)) {
                        (exists|i: int|
                            least_hit(xs, needle, start as int, end as int, i) && index_reply(r, i))
                    } else {
                        r is Ok && r->Ok_0 == -1
                    },
                },
                Ok(_) => r is Ok && r->Ok_0 == -1,
            },
        },
{
    let path = backwards_compat_path(path);
    match slot {
        None => Ok(-1),
        Some(doc) => doc.arr_index(path.as_str(), scalar, start, end),
    }
}

/// What an update replies and leaves under the key. A key that holds
/// nothing takes no update.
pub open spec fn update_reply(slot: Option<Json>, path: Seq<char>, u: UpdateModel) -> (
    Result<Json, Failure>,
    Option<Json>,
) {
    match slot {
        None => (Err(no_key()), None),
        Some(doc) => match parsed(path) {
            None => (Err(malformed()), slot),
            Some(p) => (updated(doc, p, u).0, Some(updated(doc, p, u).1)),
        },
    }
}

/// Applies an update to the document under a key.
fn update_key(slot: &mut Option<RedisJSON>, path: &str, update: &Update) -> (r: Result<
    Node,
    Error,
>)
    ensures
        result_view(r) == update_reply(slot_view(*old(slot)), path@, update@).0,
        slot_view(*final(slot)) == update_reply(slot_view(*old(slot)), path@, update@).1,
        slot_wf(*old(slot)) && update_well_formed(update@) ==> slot_wf(*final(slot)),
{
    match slot {
        None => Err(
            Error::new(
                ErrorKind::Key,
                "ERR could not perform this operation on a key that doesn't exist",
            ),
        ),
        Some(doc) => doc.value_op(path, update),
    }
}

/// The length that a command replies for the value it has made: the number
/// of bytes of a string, the number of items of an array. Any other value
/// means that the path matched nothing.
pub open spec fn length_reply(made: Result<Json, Failure>) -> Result<nat, Failure> {
    match made {
        Err(f) => Err(f),
        Ok(Json::String(s)) => Ok(byte_len(s)),
        Ok(Json::Array(xs)) => Ok(xs.len()),
        Ok(_) => Err(no_match()),
    }
}

/// Whether a reply is the length or the failure that is wanted. A length
/// that is replied fits the machine's word.
pub open spec fn length_is(r: Result<usize, Error>, want: Result<nat, Failure>) -> bool {
    match want {
        Ok(n) => r == Ok::<usize, Error>(n as usize) && n <= usize::MAX,
        Err(f) => r is Err && r->Err_0@ == f,
    }
}

/// The length of the value that an update has made.
fn made_length(made: Result<Node, Error>) -> (r: Result<usize, Error>)
    ensures
        length_is(r, length_reply(result_view(made))),
{
    match made {
        Err(e) => Err(e),
        Ok(Node::String(s)) => Ok(byte_length(s.as_str())),
        Ok(Node::Array(xs)) => {
            proof {
                lemma_array_view(xs);
            }
            Ok(xs.len())
        },
        Ok(_) => Err(Error::new(ErrorKind::Path, "ERR path does not exist")),
    }
}

/// What a string append replies and leaves under the key. The argument is
/// the JSON text of a string; what it spells is appended to every string
/// that the path matches, and the length in bytes of the last string made is
/// replied. An argument that cannot be read, or that spells no string, fails
/// the command and leaves the key as it was.
pub open spec fn str_append_reply(slot: Option<Json>, path: Seq<char>, json: Seq<char>) -> (
    Result<nat, Failure>,
    Option<Json>,
) {
    match json_decoded(json) {
        Err(m) => (Err(unreadable(m)), slot),
        Ok(Json::String(text)) => (
            length_reply(update_reply(slot, path, UpdateModel::StrAppend(text)).0),
            update_reply(slot, path, UpdateModel::StrAppend(text)).1,
        ),
        Ok(j) => (Err(mismatch("string"@, kind_name(j))), slot),
    }
}

/// Appends the string that the JSON text `json` spells to every string that
/// the path matches. Replies the length in bytes of the last string made.
pub fn json_str_append(slot: &mut Option<RedisJSON>, path: String, json: String) -> (r: Result<
    usize,
    Error,
>)
    ensures
        length_is(r, str_append_reply(slot_view(*old(slot)), compat_path(path@), json@).0),
        slot_view(*final(slot)) == str_append_reply(
            slot_view(*old(slot)),
            compat_path(path@),
            json@,
        ).1,
        slot_wf(*old(slot)) ==> slot_wf(*final(slot)),
{
    let path = backwards_compat_path(path);
    match json_decode(json.as_str()) {
        Err(m) => Err(Error { kind: ErrorKind::Parse, msg: m }),
        Ok(Node::String(text)) => made_length(
            update_key(slot, path.as_str(), &Update::StrAppend(text)),
        ),
        Ok(other) => Err(type_mismatch("string", other.value_name())),
    }
}

/// What reading each text as JSON gives: the values, or the message of the
/// first text that cannot be read.
pub open spec fn decoded_all(texts: Seq<Seq<char>>) -> Result<Seq<Json>, Failure>
    decreases texts.len(),
{
    if texts.len() == 0 {
        Ok(Seq::empty())
    } else {
        match decoded_all(texts.drop_last()) {
            Err(f) => Err(f),
            Ok(head) => match json_decoded(texts.last()) {
                Err(m) => Err(unreadable(m)),
                Ok(j) => Ok(head.push(j)),
            },
        }
    }
}

/// A text among the first that cannot be read fails the whole.
pub proof fn lemma_decoded_fails(texts: Seq<Seq<char>>, n: int)
    requires
        0 <= n <= texts.len(),
        decoded_all(texts.take(n)) is Err,
    ensures
        decoded_all(texts) == decoded_all(texts.take(n)),
    decreases texts.len() - n,
{
    if n == texts.len() {
        assert(texts.take(n) =~= texts);
    } else {
        assert(texts.take(n + 1).drop_last() =~= texts.take(n));
        lemma_decoded_fails(texts, n + 1);
    }
}

/// Reads each text as JSON.
pub fn decode_all(items: &Vec<String>) -> (r: Result<Vec<Node>, Error>)
    ensures
        match decoded_all(texts(items@)) {
            Ok(js) => r is Ok && views(r->Ok_0@) == js,
            Err(f) => r is Err && r->Err_0@ == f,
        },
        r is Ok ==> all_well_formed(views(r->Ok_0@)),
{
    let ghost all = texts(items@);
    let mut out: Vec<Node> = Vec::new();
    let mut i: usize = 0;
    proof {
        assert(all.take(0) =~= Seq::<Seq<char>>::empty());
        assert(views(out@) =~= Seq::<Json>::empty());
    }
    while i < items.len()
        invariant
            i <= items.len(),
            all == texts(items@),
            decoded_all(all.take(i as int)) == Ok::<Seq<Json>, Failure>(views(out@)),
            all_well_formed(views(out@)),
        decreases items.len() - i,
    {
        proof {
            assert(all.take(i + 1).drop_last() =~= all.take(i as int));
            assert(all.take(i + 1).last() == items[i as int]@);
        }
        let ghost prev = out@;
        match json_decode(items[i].as_str()) {
            Ok(v) => {
                out.push(v);
                proof {
                    assert(views(out@) =~= views(prev).push(v@));
                }
            },
            Err(m) => {
                proof {
                    lemma_decoded_fails(all, i + 1);
                }
                return Err(Error { kind: ErrorKind::Parse, msg: m });
            },
        }
        i += 1;
    }
    proof {
        assert(all.take(items.len() as int) =~= all);
    }
    Ok(out)
}

/// Appends the values that the texts spell to every array that the path
/// matches. Replies the number of items of the last array made.
pub fn json_arr_append(slot: &mut Option<RedisJSON>, path: String, items: &Vec<String>) -> (r:
    Result<usize, Error>)
    ensures
        match decoded_all(texts(items@)) {
            Err(f) => r is Err && r->Err_0@ == f && slot_view(*final(slot)) == slot_view(
                *old(slot),
            ),
            Ok(js) => {
                let reply = update_reply(
                    slot_view(*old(slot)),
                    compat_path(path@),
                    UpdateModel::ArrAppend(js),
                );
                &&& slot_view(*final(slot)) == reply.1
                &&& length_is(r, length_reply(reply.0))
            },
        },
        slot_wf(*old(slot)) ==> slot_wf(*final(slot)),
{
    let path = backwards_compat_path(path);
    let values = match decode_all(items) {
        Ok(values) => values,
        Err(e) => {
            return Err(e);
        },
    };
    made_length(update_key(slot, path.as_str(), &Update::ArrAppend(values)))
}

/// Inserts the values that the texts spell into every array that the path
/// matches, before `index`. Replies the number of items of the last array
/// made.
pub fn json_arr_insert(
    slot: &mut Option<RedisJSON>,
    path: String,
    index: i64,
    items: &Vec<String>,
) -> (r: Result<usize, Error>)
    ensures
        match decoded_all(texts(items@)) {
            Err(f) => r is Err && r->Err_0@ == f && slot_view(*final(slot)) == slot_view(
                *old(slot),
            ),
            Ok(js) => {
                let reply = update_reply(
                    slot_view(*old(slot)),
                    compat_path(path@),
                    UpdateModel::ArrInsert(index as int, js),
                );
                &&& slot_view(*final(slot)) == reply.1
                &&& length_is(r, length_reply(reply.0))
            },
        },
        slot_wf(*old(slot)) ==> slot_wf(*final(slot)),
{
    let path = backwards_compat_path(path);
    let values = match decode_all(items) {
        Ok(values) => values,
        Err(e) => {
            return Err(e);
        },
    };
    made_length(update_key(slot, path.as_str(), &Update::ArrInsert(index, values)))
}

/// Cuts every array that the path matches down to the items from `start`
/// to `stop`, both included. Replies the number of items of the last array
/// made.
pub fn json_arr_trim(slot: &mut Option<RedisJSON>, path: String, start: usize, stop: usize) -> (r:
    Result<usize, Error>)
    ensures
        ({
            let reply = update_reply(
                slot_view(*old(slot)),
                compat_path(path@),
                UpdateModel::ArrTrim(start as nat, stop as nat),
            );
            &&& slot_view(*final(slot)) == reply.1
            &&& length_is(r, length_reply(reply.0))
        }),
        slot_wf(*old(slot)) ==> slot_wf(*final(slot)),
{
    let path = backwards_compat_path(path);
    made_length(update_key(slot, path.as_str(), &Update::ArrTrim(start, stop)))
}

/// The index that a pop goes by: the one given, or one beyond every array.
pub open spec fn pop_index(index: Option<i64>) -> int {
    match index {
        Some(i) => i as int,
        None => i64::MAX as int,
    }
}

/// What a pop replies and leaves under the key: the text of the item taken
/// from the last array that the path matches.
pub open spec fn pop_reply(slot: Option<Json>, path: Seq<char>, index: Option<i64>) -> (
    Result<Seq<char>, Failure>,
    Option<Json>,
) {
    match slot {
        None => (Err(no_key()), None),
        Some(doc) => match parsed(path) {
            None => (Err(malformed()), slot),
            Some(p) => if targets(doc, p).len() == 0 {
                (Err(no_match()), slot)
            } else {
                let done = updated(doc, p, UpdateModel::ArrPop(pop_index(index)));
                match done.0 {
                    Err(f) => (Err(f), Some(done.1)),
                    Ok(_) => match arr_pop_item(targets(doc, p).last(), pop_index(index)) {
                        Err(f) => (Err(f), Some(done.1)),
                        Ok(item) => (Ok(text_of(item)), Some(done.1)),
                    },
                }
            },
        },
    }
}

/// The item that a pop at `index` takes from the last array that the path
/// matches in a document.
fn popped_item(doc: &RedisJSON, path: &str, index: i64) -> (r: Result<Option<Node>, Error>)
    ensures
        match matched(doc@, path@) {
            Err(f) => r is Err && r->Err_0@ == f,
            Ok(ts) => if ts.len() == 0 {
                r is Ok && r->Ok_0 is None
            } else {
                match arr_pop_item(ts.last(), index as int) {
                    Ok(item) => r is Ok && r->Ok_0 is Some && r->Ok_0->0@ == item,
                    Err(f) => r is Err && r->Err_0@ == f,
                }
            },
        },
{
    let nodes = match doc.matches(path) {
        Ok(nodes) => nodes,
        Err(e) => {
            return Err(e);
        },
    };
    if nodes.len() == 0 {
        return Ok(None);
    }
    proof {
        assert(ref_views(nodes@).last() == (*nodes[nodes.len() - 1])@);
    }
    match arr_pop_value(nodes[nodes.len() - 1], index) {
        Ok(item) => Ok(Some(item)),
        Err(e) => Err(e),
    }
}

/// Takes one item out of every array that the path matches: the one at
/// `index`, or the last one where no index is given. Replies the text of
/// the item taken from the last array.
pub fn json_arr_pop(slot: &mut Option<RedisJSON>, path: String, index: Option<i64>) -> (r: Result<
    String,
    Error,
>)
    ensures
        text_view(r) == pop_reply(slot_view(*old(slot)), compat_path(path@), index).0,
        slot_view(*final(slot)) == pop_reply(slot_view(*old(slot)), compat_path(path@), index).1,
        slot_wf(*old(slot)) ==> slot_wf(*final(slot)),
{
    let path = backwards_compat_path(path);
    let index: i64 = match index {
        Some(i) => i,
        None => i64::MAX,
    };
    let doc = match slot {
        None => {
            return Err(
                Error::new(
                    ErrorKind::Key,
                    "ERR could not perform this operation on a key that doesn't exist",
                ),
            );
        },
        Some(doc) => doc,
    };
    let item = match popped_item(doc, path.as_str(), index) {
        Ok(Some(item)) => Ok(item),
        Ok(None) => {
            return Err(Error::new(ErrorKind::Path, "ERR path does not exist"));
        },
        Err(e) => Err(e),
    };
    match doc.value_op(path.as_str(), &Update::ArrPop(index)) {
        Err(e) => Err(e),
        Ok(_) => match item {
            Err(e) => Err(e),
            Ok(item) => Ok(encode(&item)),
        },
    }
}

/// The numbers among the values, each in its place; `None` stands for a
/// value that is no number.
pub open spec fn numbers_of(ts: Seq<Json>) -> Seq<Option<Num>> {
    Seq::new(
        ts.len(),
        |i: int|
            match ts[i] {
                Json::Number(n) => Some(n),
                _ => None,
            },
    )
}

/// The models of a sequence of optional numbers, one for one.
pub open spec fn opt_num_views(items: Seq<Option<Number>>) -> Seq<Option<Num>> {
    Seq::new(
        items.len(),
        |i: int|
            match items[i] {
                Some(n) => Some(n@),
                None => None,
            },
    )
}

/// The numbers that the path matches under a key, in document order, for
/// the arithmetic that is done on them outside. `None` stands for a match
/// that is no number.
pub fn json_num_targets(slot: Option<&RedisJSON>, path: String) -> (r: Result<
    Vec<Option<Number>>,
    Error,
>)
    ensures
        match ref_slot_view(slot) {
            None => r is Err && r->Err_0@ == no_key(),
            Some(doc) => match matched(doc, compat_path(path@)) {
                Err(f) => r is Err && r->Err_0@ == f,
                Ok(ts) => r is Ok && opt_num_views(r->Ok_0@) == numbers_of(ts),
            },
        },
{
    let path = backwards_compat_path(path);
    let doc = match slot {
        None => {
            return Err(
                Error::new(
                    ErrorKind::Key,
                    "ERR could not perform this operation on a key that doesn't exist",
                ),
            );
        },
        Some(doc) => doc,
    };
    let nodes = match doc.matches(path.as_str()) {
        Ok(nodes) => nodes,
        Err(e) => {
            return Err(e);
        },
    };
    let mut out: Vec<Option<Number>> = Vec::new();
    let mut i: usize = 0;
    while i < nodes.len()
        invariant
            i <= nodes.len(),
            out.len() == i,
            forall|k: int|
                0 <= k < i ==> (match #[trigger] out[k] {
                    Some(n) => Some(n@),
                    None => None,
                }) == numbers_of(ref_views(nodes@))[k],
        decreases nodes.len() - i,
    {
        let item = match nodes[i] {
            Node::Number(n) => Some(n.clone()),
            _ => None,
        };
        out.push(item);
        i += 1;
    }
    proof {
        assert(opt_num_views(out@) =~= numbers_of(ref_views(nodes@)));
    }
    Ok(out)
}

/// What storing the results of arithmetic replies and leaves under the
/// key: the text of the last number stored.
pub open spec fn num_reply(slot: Option<Json>, path: Seq<char>, rs: Seq<Option<Num>>) -> (
    Result<Seq<char>, Failure>,
    Option<Json>,
) {
    let reply = update_reply(slot, path, UpdateModel::Numbers(rs));
    match reply.0 {
        Err(f) => (Err(f), reply.1),
        Ok(Json::Number(n)) => (Ok(text_of(Json::Number(n))), reply.1),
        Ok(_) => (Err(no_match()), reply.1),
    }
}

/// Stores the results of arithmetic in the numbers that the path matches,
/// the `i`-th result in the `i`-th match. A match that is no number, and a
/// result that is not finite, fail the command and leave the document as it
/// was. Replies the text of the last number stored.
pub fn json_num_op(slot: &mut Option<RedisJSON>, path: String, results: Vec<NumResult>) -> (r:
    Result<String, Error>)
    ensures
        text_view(r) == num_reply(
            slot_view(*old(slot)),
            compat_path(path@),
            num_views(results@),
        ).0,
        slot_view(*final(slot)) == num_reply(
            slot_view(*old(slot)),
            compat_path(path@),
            num_views(results@),
        ).1,
        slot_wf(*old(slot)) ==> slot_wf(*final(slot)),
{
    let path = backwards_compat_path(path);
    match update_key(slot, path.as_str(), &Update::Numbers(results)) {
        Err(e) => Err(e),
        Ok(Node::Number(n)) => Ok(encode(&Node::Number(n))),
        Ok(_) => Err(Error::new(ErrorKind::Path, "ERR path does not exist")),
    }
}

} // verus!
