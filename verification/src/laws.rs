//! What holds of the commands taken together.

use crate::commands::{del_reply, get_reply, set_reply, update_reply};
use crate::engine::{
    lemma_put_then_targets, lemma_unmatched_unchanged, repeated, targets, EditModel,
};
use crate::error::{not_finite, Failure};
use crate::ops::{arr_trimmed, num_stored, UpdateModel};
use crate::path::{parsed, steps_from, Seg};
use crate::redisjson::{
    failures, found, loaded, non_null, outcomes, payload, pruned, set_at, successes, text_at,
    text_of, updated, Format, SetOptions, Stored,
};
use crate::value::{Json, Num};
use vstd::prelude::*;

verus! {

/// The text `$` is the path without steps, and it matches the root alone.
pub proof fn law_root_path(doc: Json)
    ensures
        parsed(seq!['$']) == Some(Seq::<Seg>::empty()),
        targets(doc, Seq::<Seg>::empty()) == seq![doc],
        found(doc, seq!['$']) == Ok::<Json, Failure>(doc),
{
    assert(steps_from(seq!['$'], 1) == Some(Seq::<Seg>::empty()));
}

/// A set at the root without a guard takes any payload that can be read,
/// whatever the key held, and a get at the root then replies the text of
/// the value that the payload holds.
pub proof fn law_set_root_then_get(slot: Option<Json>, value: Seq<char>, format: Format)
    requires
        payload(value, format) is Ok,
    ensures
        set_reply(slot, seq!['$'], value, None, format) == (
            Ok::<bool, Failure>(true),
            Some(payload(value, format)->Ok_0),
        ),
        get_reply(set_reply(slot, seq!['$'], value, None, format).1, seq!['$']) == Ok::<
            Option<Seq<char>>,
            Failure,
        >(Some(text_of(payload(value, format)->Ok_0))),
        text_at(payload(value, format)->Ok_0, seq!['$'], Format::JSON) == Ok::<
            Seq<char>,
            Failure,
        >(text_of(payload(value, format)->Ok_0)),
{
    let v = payload(value, format)->Ok_0;
    law_root_path(v);
    if slot is Some {
        law_root_path(slot->0);
    }
}

/// A record of the current encoding holds what its text holds as JSON, and
/// a record of the legacy encoding holds its tree.
pub proof fn law_load(stored: Stored)
    ensures
        stored is Text ==> loaded(stored, 2) == payload(stored->Text_0@, Format::JSON),
        stored is Legacy ==> loaded(stored, 0) == Ok::<Json, Failure>(stored->Legacy_0@),
{
}

/// A trim whose start lies beyond its stop does to a key what a trim that
/// starts at its stop does.
pub proof fn law_trim_start_beyond_stop(slot: Option<Json>, path: Seq<char>, start: nat, stop: nat)
    requires
        start > stop,
    ensures
        update_reply(slot, path, UpdateModel::ArrTrim(start, stop)) == update_reply(
            slot,
            path,
            UpdateModel::ArrTrim(stop, stop),
        ),
{
    if slot is Some && parsed(path) is Some {
        let ts = targets(slot->0, parsed(path)->0);
        let a = outcomes(ts, UpdateModel::ArrTrim(start, stop));
        let b = outcomes(ts, UpdateModel::ArrTrim(stop, stop));
        assert forall|i: int| 0 <= i < ts.len() implies a[i] == b[i] by {
            assert(arr_trimmed(ts[i], start as int, stop as int) == arr_trimmed(
                ts[i],
                stop as int,
                stop as int,
            ));
        }
        assert(a =~= b);
    }
}

/// Where the path matches one number, storing the result of arithmetic
/// fails exactly where that result is not finite, and then for that reason;
/// the document stays as it was.
pub proof fn law_arithmetic_failure(doc: Json, p: Seq<Seg>, rs: Seq<Option<Num>>)
    requires
        targets(doc, p).len() == 1,
        targets(doc, p)[0] is Number,
        rs.len() >= 1,
    ensures
        updated(doc, p, UpdateModel::Numbers(rs)).0 is Err <==> rs[0] is None,
        rs[0] is None ==> updated(doc, p, UpdateModel::Numbers(rs)) == (
            Err::<Json, Failure>(not_finite()),
            doc,
        ),
        rs[0] is Some ==> updated(doc, p, UpdateModel::Numbers(rs)).0 == Ok::<Json, Failure>(
            Json::Number(rs[0]->0),
        ),
{
    let ts = targets(doc, p);
    let u = UpdateModel::Numbers(rs);
    let outs = outcomes(ts, u);
    assert(outs.len() == 1);
    assert(outs[0] == num_stored(ts[0], 0, rs));
    assert(outs.drop_last() =~= Seq::<Result<Json, Failure>>::empty());
    assert(outs.last() == outs[0]);
    assert(failures(outs.drop_last()) =~= Seq::<Failure>::empty());
    assert(successes(outs.drop_last()) =~= Seq::<Json>::empty());
    if rs[0] is None {
        assert(failures(outs) =~= seq![not_finite()]);
    } else {
        assert(successes(outs) =~= seq![Json::Number(rs[0]->0)]);
        assert(failures(outs) =~= Seq::<Failure>::empty());
    }
}

/// A delete at the root empties the key. A delete elsewhere, where none of
/// the matches is null, replies the number of matches.
pub proof fn law_delete(doc: Json, path: Seq<char>)
    ensures
        del_reply(Some(doc), seq!['$']) == (Ok::<nat, Failure>(1), None::<Json>),
        path != seq!['$'] && parsed(path) is Some && (forall|i: int|
            0 <= i < targets(doc, parsed(path)->0).len() ==> !(#[trigger] targets(
                doc,
                parsed(path)->0,
            )[i] is Null)) ==> del_reply(Some(doc), path).0 == Ok::<nat, Failure>(
            targets(doc, parsed(path)->0).len(),
        ),
{
    if parsed(path) is Some {
        let ts = targets(doc, parsed(path)->0);
        if forall|i: int| 0 <= i < ts.len() ==> !(#[trigger] ts[i] is Null) {
            law_count_without_null(ts);
        }
    }
}

/// Where none of the values is null, as many are counted as there are.
pub proof fn law_count_without_null(ts: Seq<Json>)
    requires
        forall|i: int| 0 <= i < ts.len() ==> !(#[trigger] ts[i] is Null),
    ensures
        non_null(ts) == ts.len(),
    decreases ts.len(),
{
    if ts.len() > 0 {
        let init = ts.drop_last();
        assert forall|i: int| 0 <= i < init.len() implies !(#[trigger] init[i] is Null) by {
            assert(init[i] == ts[i]);
        }
        law_count_without_null(init);
        assert(!(ts[ts.len() - 1] is Null));
    }
}

/// Where a path matches nothing, an update and a delete leave the document
/// as it is; the update gives null.
pub proof fn law_unmatched_unchanged(doc: Json, p: Seq<Seg>, u: UpdateModel)
    requires
        targets(doc, p).len() == 0,
    ensures
        updated(doc, p, u) == (Ok::<Json, Failure>(Json::Null), doc),
        pruned(doc, p) == doc,
{
    let outs = outcomes(targets(doc, p), u);
    assert(outs =~= Seq::<Result<Json, Failure>>::empty());
    lemma_unmatched_unchanged(doc, p, EditModel::Replace(successes(outs)), 0);
    lemma_unmatched_unchanged(doc, p, EditModel::Remove, 0);
}

/// A set at a path that matches, under any guard but `NotExists`, sets
/// something, and the path then matches as many values as before, each the
/// value that was set.
pub proof fn law_set_then_matches(doc: Json, p: Seq<Seg>, v: Json, option: SetOptions)
    requires
        p.len() > 0,
        targets(doc, p).len() > 0,
        option != SetOptions::NotExists,
    ensures
        set_at(doc, p, v, option) is Ok,
        set_at(doc, p, v, option)->Ok_0.0,
        targets(set_at(doc, p, v, option)->Ok_0.1, p) == repeated(v, targets(doc, p).len()),
{
    lemma_put_then_targets(doc, p, v, 0);
}

/// After such a set, the first value that the path matches is the value
/// that was set.
pub proof fn law_set_then_found(doc: Json, path: Seq<char>, v: Json, option: SetOptions)
    requires
        parsed(path) is Some,
        parsed(path)->0.len() > 0,
        targets(doc, parsed(path)->0).len() > 0,
        option != SetOptions::NotExists,
    ensures
        set_at(doc, parsed(path)->0, v, option) is Ok,
        found(set_at(doc, parsed(path)->0, v, option)->Ok_0.1, path) == Ok::<Json, Failure>(v),
{
    law_set_then_matches(doc, parsed(path)->0, v, option);
}

/// An update that fails for any match leaves the document as it was, and
/// one that succeeds leaves no failure behind.
pub proof fn law_failure_changes_nothing(doc: Json, p: Seq<Seg>, u: UpdateModel)
    ensures
        updated(doc, p, u).0 is Err ==> updated(doc, p, u).1 == doc,
        updated(doc, p, u).0 is Err <==> failures(outcomes(targets(doc, p), u)).len() > 0,
{
}

} // verus!
