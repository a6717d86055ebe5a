//! Path resolution and tree rebuild.
//!
//! `targets` says which nodes a path matches, in document order. `rewritten`
//! says what the tree looks like once each match has been edited: replaced,
//! removed, or given a new member. Untouched subtrees stay as they are.

use crate::path::{Seg, Segment, steps};
use crate::value::{
    Json, Node, all_well_formed, copy_of, distinct_names, key_index, lemma_array_view,
    lemma_key_index, lemma_object_view, member_views, views, well_formed,
};
use vstd::prelude::*;

verus! {

/// The nodes directly below a node, in order.
pub open spec fn children(j: Json) -> Seq<Json> {
    match j {
        Json::Array(items) => items,
        Json::Object(members) => Seq::new(members.len(), |i: int| members[i].1),
        _ => Seq::empty(),
    }
}

/// Whether a step selects the child at position `i` of `j`.
pub open spec fn selects(seg: Seg, j: Json, i: int) -> bool {
    match seg {
        Seg::Key(k) => j is Object && 0 <= i < j->Object_0.len() && j->Object_0[i].0 == k,
        Seg::Index(n) => j is Array && i == n,
        Seg::All => true,
    }
}

/// The nodes that the path `p` matches below and at `j`, in document order.
pub open spec fn targets(j: Json, p: Seq<Seg>) -> Seq<Json>
    decreases p.len(), 1nat, 0nat,
{
    if p.len() == 0 {
        seq![j]
    } else {
        targets_upto(j, p, children(j).len())
    }
}

/// The matches of `p` that lie in the first `n` children of `j`.
pub open spec fn targets_upto(j: Json, p: Seq<Seg>, n: nat) -> Seq<Json>
    decreases p.len(), 0nat, n,
{
    if p.len() == 0 || n == 0 || n > children(j).len() {
        Seq::empty()
    } else {
        let before = targets_upto(j, p, (n - 1) as nat);
        if selects(p[0], j, n - 1) {
            before + targets(children(j)[n - 1], p.skip(1))
        } else {
            before
        }
    }
}

/// What is done to each match.
pub enum Edit<'a> {
    /// The match at ordinal `i` becomes the `i`-th of these values.
    Replace(&'a Vec<Node>),
    /// Every match becomes this value.
    Put(&'a Node),
    /// The match leaves its parent.
    Remove,
    /// The match, if it is an object without such a member, gets one.
    Insert(&'a String, &'a Node),
}

/// What an `Edit` stands for.
pub ghost enum EditModel {
    Replace(Seq<Json>),
    Put(Json),
    Remove,
    Insert(Seq<char>, Json),
}

impl<'a> View for Edit<'a> {
    type V = EditModel;

    open spec fn view(&self) -> EditModel {
        match self {
            Edit::Replace(news) => EditModel::Replace(views(news@)),
            Edit::Put(v) => EditModel::Put(v@),
            Edit::Remove => EditModel::Remove,
            Edit::Insert(k, v) => EditModel::Insert(k@, v@),
        }
    }
}

/// Whether `j` is an object that has no member named `key`.
pub open spec fn lacks_member(j: Json, key: Seq<char>) -> bool {
    j is Object && key_index(j->Object_0, key) is None
}

/// `j` with the member `key: v` appended where `j` is an object that has no
/// such member; else `j` as it is.
pub open spec fn with_member(j: Json, key: Seq<char>, v: Json) -> Json {
    if lacks_member(j, key) {
        Json::Object(j->Object_0.push((key, v)))
    } else {
        j
    }
}

/// What an edit makes of the match with ordinal `i`; `None` removes it.
pub open spec fn apply_edit(e: EditModel, i: int, node: Json) -> Option<Json> {
    match e {
        EditModel::Replace(news) => Some(
            if 0 <= i < news.len() {
                news[i]
            } else {
                node
            },
        ),
        EditModel::Put(v) => Some(v),
        EditModel::Remove => None,
        EditModel::Insert(k, v) => Some(with_member(node, k, v)),
    }
}

/// The values that stay, in order.
pub open spec fn kept(rs: Seq<Option<Json>>) -> Seq<Json>
    decreases rs.len(),
{
    if rs.len() == 0 {
        Seq::empty()
    } else {
        match rs.last() {
            Some(c) => kept(rs.drop_last()).push(c),
            None => kept(rs.drop_last()),
        }
    }
}

/// The members that stay, in order, each under its old name.
pub open spec fn kept_members(ms: Seq<(Seq<char>, Json)>, rs: Seq<Option<Json>>) -> Seq<
    (Seq<char>, Json),
>
    decreases rs.len(),
{
    if rs.len() == 0 || rs.len() > ms.len() {
        Seq::empty()
    } else {
        match rs.last() {
            Some(c) => kept_members(ms, rs.drop_last()).push((ms[rs.len() - 1].0, c)),
            None => kept_members(ms, rs.drop_last()),
        }
    }
}

/// What becomes of the child at position `i` of `j`.
pub open spec fn result_at(j: Json, p: Seq<Seg>, e: EditModel, start: int, i: int) -> Option<Json>
    decreases p.len(), 0nat,
{
    if p.len() == 0 || !(0 <= i < children(j).len()) {
        None
    } else if selects(p[0], j, i) {
        rewritten(children(j)[i], p.skip(1), e, start + targets_upto(j, p, i as nat).len())
    } else {
        Some(children(j)[i])
    }
}

/// What becomes of every child of `j`.
pub open spec fn results(j: Json, p: Seq<Seg>, e: EditModel, start: int) -> Seq<Option<Json>>
    decreases p.len(), 1nat,
{
    Seq::new(children(j).len(), |i: int| result_at(j, p, e, start, i))
}

/// The tree `j` once every match of `p` has been edited, `start` being the
/// ordinal of the first match in it; `None` where `j` itself is removed.
pub open spec fn rewritten(j: Json, p: Seq<Seg>, e: EditModel, start: int) -> Option<Json>
    decreases p.len(), 2nat,
{
    if p.len() == 0 {
        apply_edit(e, start, j)
    } else {
        match j {
            Json::Array(_) => Some(Json::Array(kept(results(j, p, e, start)))),
            Json::Object(members) => Some(
                Json::Object(kept_members(members, results(j, p, e, start))),
            ),
            _ => Some(j),
        }
    }
}

/// The models of borrowed values, one for one.
pub open spec fn ref_views(items: Seq<&Node>) -> Seq<Json> {
    Seq::new(items.len(), |i: int| (*items[i])@)
}

/// The model of an optional value.
pub open spec fn opt_view(r: Option<Node>) -> Option<Json> {
    match r {
        Some(v) => Some(v@),
        None => None,
    }
}

/// The matches in fewer children are a prefix of those in more.
pub proof fn lemma_targets_upto_grows(j: Json, p: Seq<Seg>, a: nat, b: nat)
    requires
        a <= b <= children(j).len(),
    ensures
        targets_upto(j, p, a).len() <= targets_upto(j, p, b).len(),
    decreases b,
{
    if a < b {
        lemma_targets_upto_grows(j, p, a, (b - 1) as nat);
    }
}

/// The steps below `depth` start with the step at `depth`.
proof fn lemma_rest(segs: Seq<Segment>, depth: int)
    requires
        0 <= depth < segs.len(),
    ensures
        steps(segs).skip(depth).len() > 0,
        steps(segs).skip(depth)[0] == segs[depth]@,
        steps(segs).skip(depth).skip(1) == steps(segs).skip(depth + 1),
{
    assert(steps(segs).skip(depth).skip(1) =~= steps(segs).skip(depth + 1));
}

/// Whether the step selects item `i` of an array.
fn hits_item(seg: &Segment, i: usize) -> (r: bool)
    ensures
        r == match seg@ {
            Seg::Key(_) => false,
            Seg::Index(n) => i == n,
            Seg::All => true,
        },
{
    match seg {
        Segment::Key(_) => false,
        Segment::Index(n) => *n == i,
        Segment::All => true,
    }
}

/// Whether the step selects a member named `name`.
fn hits_member(seg: &Segment, name: &String) -> (r: bool)
    ensures
        r == match seg@ {
            Seg::Key(k) => name@ == k,
            Seg::Index(_) => false,
            Seg::All => true,
        },
{
    match seg {
        Segment::Key(k) => *k == *name,
        Segment::Index(_) => false,
        Segment::All => true,
    }
}

/// Appends to `out` the nodes that the steps from `depth` on match in `v`.
pub fn collect<'a>(v: &'a Node, segs: &Vec<Segment>, depth: usize, out: &mut Vec<&'a Node>)
    requires
        depth <= segs.len(),
    ensures
        ref_views(final(out)@) == ref_views(old(out)@) + targets(
            v@,
            steps(segs@).skip(depth as int),
        ),
    decreases segs.len() - depth,
{
    let ghost before = ref_views(out@);
    let ghost p = steps(segs@).skip(depth as int);
    let ghost j = v@;
    if depth == segs.len() {
        out.push(v);
        proof {
            assert(ref_views(out@) =~= before + seq![j]);
        }
        return ;
    }
    proof {
        lemma_rest(segs@, depth as int);
    }
    let seg = &segs[depth];
    match v {
        Node::Array(items) => {
            proof {
                lemma_array_view(*items);
                assert(before + targets_upto(j, p, 0) =~= before);
            }
            let mut i: usize = 0;
            while i < items.len()
                invariant
                    *v == Node::Array(*items),
                    j == v@,
                    children(j) == views(items@),
                    depth < segs.len(),
                    i <= items.len(),
                    p == steps(segs@).skip(depth as int),
                    p.len() > 0,
                    p[0] == seg@,
                    p.skip(1) == steps(segs@).skip(depth + 1),
                    ref_views(out@) == before + targets_upto(j, p, i as nat),
                decreases items.len() - i,
            {
                let ghost sofar = targets_upto(j, p, i as nat);
                if hits_item(seg, i) {
                    collect(&items[i], segs, depth + 1, out);
                    proof {
                        assert(before + sofar + targets(items[i as int]@, p.skip(1)) =~= before
                            + (sofar + targets(items[i as int]@, p.skip(1))));
                    }
                }
                i += 1;
            }
        },
        Node::Object(members) => {
            proof {
                lemma_object_view(*members);
                assert(children(j) =~= Seq::new(
                    members@.len(),
                    |k: int| member_views(members@)[k].1,
                ));
                assert(before + targets_upto(j, p, 0) =~= before);
            }
            let mut i: usize = 0;
            while i < members.len()
                invariant
                    *v == Node::Object(*members),
                    j == v@,
                    j == Json::Object(member_views(members@)),
                    children(j).len() == members.len(),
                    depth < segs.len(),
                    i <= members.len(),
                    p == steps(segs@).skip(depth as int),
                    p.len() > 0,
                    p[0] == seg@,
                    p.skip(1) == steps(segs@).skip(depth + 1),
                    ref_views(out@) == before + targets_upto(j, p, i as nat),
                decreases members.len() - i,
            {
                let ghost sofar = targets_upto(j, p, i as nat);
                if hits_member(seg, &members[i].0) {
                    collect(&members[i].1, segs, depth + 1, out);
                    proof {
                        assert(before + sofar + targets(members[i as int].1@, p.skip(1)) =~= before
                            + (sofar + targets(members[i as int].1@, p.skip(1))));
                    }
                }
                i += 1;
            }
        },
        _ => {
            proof {
                assert(before + targets_upto(j, p, 0) =~= before);
            }
        },
    }
}

/// Whether the object's members include one named `key`.
pub fn has_member(members: &Vec<(String, Node)>, key: &String) -> (r: bool)
    ensures
        r == key_index(member_views(members@), key@) is Some,
{
    let ghost ms = member_views(members@);
    let mut i: usize = 0;
    while i < members.len()
        invariant
            i <= members.len(),
            ms == member_views(members@),
            forall|k: int| 0 <= k < i ==> ms[k].0 != key@,
        decreases members.len() - i,
    {
        if members[i].0 == *key {
            proof {
                lemma_key_index(ms, key@);
                assert(ms[i as int].0 == key@);
            }
            return true;
        }
        i += 1;
    }
    proof {
        lemma_key_index(ms, key@);
    }
    false
}

/// A copy of `v` that has the member `key: value` appended where `v` is an
/// object without such a member.
pub fn insert_member(v: &Node, key: &String, value: &Node) -> (r: Node)
    ensures
        r@ == with_member(v@, key@, value@),
{
    match v {
        Node::Object(members) => {
            proof {
                lemma_object_view(*members);
            }
            if has_member(members, key) {
                copy_of(v)
            } else {
                match copy_of(v) {
                    Node::Object(mut ms) => {
                        proof {
                            lemma_object_view(ms);
                        }
                        let ghost old_ms = ms@;
                        ms.push((key.clone(), copy_of(value)));
                        proof {
                            lemma_object_view(ms);
                            assert(member_views(ms@) =~= member_views(old_ms).push(
                                (key@, value@),
                            ));
                        }
                        Node::Object(ms)
                    },
                    other => other,
                }
            }
        },
        _ => copy_of(v),
    }
}

/// What the edit makes of the match `v`, whose ordinal is `start`.
fn edit_node(v: &Node, edit: &Edit, start: usize) -> (r: Option<Node>)
    ensures
        opt_view(r) == apply_edit(edit@, start as int, v@),
{
    match edit {
        Edit::Replace(news) => {
            if start < news.len() {
                Some(copy_of(&news[start]))
            } else {
                Some(copy_of(v))
            }
        },
        Edit::Put(value) => Some(copy_of(value)),
        Edit::Remove => None,
        Edit::Insert(key, value) => Some(insert_member(v, key, value)),
    }
}

/// Rebuilds `v` with every match of the steps from `depth` on edited. The
/// first match in `v` has the ordinal `start`. Gives the new tree, `None`
/// where `v` itself is removed, and the number of matches in `v`.
pub fn rewrite(v: &Node, segs: &Vec<Segment>, depth: usize, edit: &Edit, start: usize) -> (r: (
    Option<Node>,
    usize,
))
    requires
        depth <= segs.len(),
        start + targets(v@, steps(segs@).skip(depth as int)).len() <= usize::MAX,
    ensures
        opt_view(r.0) == rewritten(v@, steps(segs@).skip(depth as int), edit@, start as int),
        r.1 == targets(v@, steps(segs@).skip(depth as int)).len(),
    decreases segs.len() - depth,
{
    let ghost p = steps(segs@).skip(depth as int);
    let ghost j = v@;
    let ghost e = edit@;
    if depth == segs.len() {
        return (edit_node(v, edit, start), 1);
    }
    proof {
        lemma_rest(segs@, depth as int);
    }
    let seg = &segs[depth];
    let ghost rs = results(j, p, e, start as int);
    match v {
        Node::Array(items) => {
            proof {
                lemma_array_view(*items);
                assert(rs.take(0) =~= Seq::<Option<Json>>::empty());
            }
            let mut out: Vec<Node> = Vec::new();
            let mut count: usize = 0;
            let mut i: usize = 0;
            while i < items.len()
                invariant
                    *v == Node::Array(*items),
                    j == v@,
                    e == edit@,
                    children(j) == views(items@),
                    depth < segs.len(),
                    i <= items.len(),
                    p == steps(segs@).skip(depth as int),
                    p.len() > 0,
                    p[0] == seg@,
                    p.skip(1) == steps(segs@).skip(depth + 1),
                    rs == results(j, p, e, start as int),
                    count == targets_upto(j, p, i as nat).len(),
                    start + targets_upto(j, p, items.len() as nat).len() <= usize::MAX,
                    views(out@) == kept(rs.take(i as int)),
                decreases items.len() - i,
            {
                let ghost old_out = out@;
                proof {
                    lemma_targets_upto_grows(j, p, (i + 1) as nat, items.len() as nat);
                    assert(rs.take(i + 1).drop_last() =~= rs.take(i as int));
                    assert(rs.take(i + 1).last() == result_at(j, p, e, start as int, i as int));
                }
                if hits_item(seg, i) {
                    let (r, c) = rewrite(&items[i], segs, depth + 1, edit, start + count);
                    count = count + c;
                    match r {
                        Some(x) => {
                            out.push(x);
                            proof {
                                assert(views(out@) =~= views(old_out).push(x@));
                            }
                        },
                        None => {},
                    }
                } else {
                    out.push(copy_of(&items[i]));
                    proof {
                        assert(views(out@) =~= views(old_out).push(items[i as int]@));
                    }
                }
                i += 1;
            }
            proof {
                assert(rs.take(items.len() as int) =~= rs);
                lemma_array_view(out);
            }
            (Some(Node::Array(out)), count)
        },
        Node::Object(members) => {
            let ghost ms = member_views(members@);
            proof {
                lemma_object_view(*members);
                assert(rs.take(0) =~= Seq::<Option<Json>>::empty());
            }
            let mut out: Vec<(String, Node)> = Vec::new();
            let mut count: usize = 0;
            let mut i: usize = 0;
            while i < members.len()
                invariant
                    *v == Node::Object(*members),
                    j == v@,
                    e == edit@,
                    ms == member_views(members@),
                    j == Json::Object(ms),
                    depth < segs.len(),
                    i <= members.len(),
                    p == steps(segs@).skip(depth as int),
                    p.len() > 0,
                    p[0] == seg@,
                    p.skip(1) == steps(segs@).skip(depth + 1),
                    rs == results(j, p, e, start as int),
                    count == targets_upto(j, p, i as nat).len(),
                    start + targets_upto(j, p, members.len() as nat).len() <= usize::MAX,
                    member_views(out@) == kept_members(ms, rs.take(i as int)),
                decreases members.len() - i,
            {
                let ghost old_out = out@;
                proof {
                    lemma_targets_upto_grows(j, p, (i + 1) as nat, members.len() as nat);
                    assert(rs.take(i + 1).drop_last() =~= rs.take(i as int));
                    assert(rs.take(i + 1).last() == result_at(j, p, e, start as int, i as int));
                }
                if hits_member(seg, &members[i].0) {
                    let (r, c) = rewrite(&members[i].1, segs, depth + 1, edit, start + count);
                    count = count + c;
                    match r {
                        Some(x) => {
                            out.push((members[i].0.clone(), x));
                            proof {
                                assert(member_views(out@) =~= member_views(old_out).push(
                                    (ms[i as int].0, x@),
                                ));
                            }
                        },
                        None => {},
                    }
                } else {
                    out.push((members[i].0.clone(), copy_of(&members[i].1)));
                    proof {
                        assert(member_views(out@) =~= member_views(old_out).push(
                            (ms[i as int].0, ms[i as int].1),
                        ));
                    }
                }
                i += 1;
            }
            proof {
                assert(rs.take(members.len() as int) =~= rs);
                lemma_object_view(out);
            }
            (Some(Node::Object(out)), count)
        },
        _ => (Some(copy_of(v)), 0),
    }
}

/// Whether the values that an edit brings are well formed.
pub open spec fn edit_well_formed(e: EditModel) -> bool {
    match e {
        EditModel::Replace(news) => all_well_formed(news),
        EditModel::Put(v) => well_formed(v),
        EditModel::Remove => true,
        EditModel::Insert(_, v) => well_formed(v),
    }
}

/// Every value that stays is one of the results.
pub proof fn lemma_kept(rs: Seq<Option<Json>>)
    ensures
        forall|k: int|
            0 <= k < kept(rs).len() ==> exists|i: int|
                0 <= i < rs.len() && rs[i] == Some(#[trigger] kept(rs)[k]),
    decreases rs.len(),
{
    if rs.len() > 0 {
        let init = rs.drop_last();
        lemma_kept(init);
        assert forall|k: int| 0 <= k < kept(rs).len() implies exists|i: int|
            0 <= i < rs.len() && rs[i] == Some(#[trigger] kept(rs)[k]) by {
            if k < kept(init).len() {
                let i = choose|i: int| 0 <= i < init.len() && init[i] == Some(kept(init)[k]);
                assert(rs[i] == Some(kept(rs)[k]));
            } else {
                assert(rs[rs.len() - 1] == Some(kept(rs)[k]));
            }
        }
    }
}

/// Every member that stays is a member of old with the result for it.
pub proof fn lemma_kept_members(ms: Seq<(Seq<char>, Json)>, rs: Seq<Option<Json>>)
    requires
        rs.len() <= ms.len(),
    ensures
        forall|k: int|
            0 <= k < kept_members(ms, rs).len() ==> exists|i: int|
                0 <= i < rs.len() && ms[i].0 == (#[trigger] kept_members(ms, rs)[k]).0 && rs[i]
                    == Some(kept_members(ms, rs)[k].1),
    decreases rs.len(),
{
    if rs.len() > 0 {
        let init = rs.drop_last();
        let out = kept_members(ms, rs);
        lemma_kept_members(ms, init);
        assert forall|k: int| 0 <= k < out.len() implies exists|i: int|
            0 <= i < rs.len() && ms[i].0 == (#[trigger] out[k]).0 && rs[i] == Some(out[k].1) by {
            if k < kept_members(ms, init).len() {
                let prev = kept_members(ms, init);
                let i = choose|i: int|
                    0 <= i < init.len() && ms[i].0 == prev[k].0 && init[i] == Some(prev[k].1);
                assert(ms[i].0 == out[k].0 && rs[i] == Some(out[k].1));
            } else {
                let i = rs.len() - 1;
                assert(ms[i].0 == out[k].0 && rs[i] == Some(out[k].1));
            }
        }
    }
}

/// The members that stay share no name where the old ones shared none.
pub proof fn lemma_kept_members_distinct(ms: Seq<(Seq<char>, Json)>, rs: Seq<Option<Json>>)
    requires
        rs.len() <= ms.len(),
        distinct_names(ms),
    ensures
        distinct_names(kept_members(ms, rs)),
    decreases rs.len(),
{
    if rs.len() > 0 {
        let init = rs.drop_last();
        let prev = kept_members(ms, init);
        let out = kept_members(ms, rs);
        lemma_kept_members_distinct(ms, init);
        lemma_kept_members(ms, init);
        assert forall|a: int, b: int| 0 <= a < b < out.len() implies (#[trigger] out[a]).0 != (
        #[trigger] out[b]).0 by {
            if b < prev.len() {
                assert(out[a] == prev[a] && out[b] == prev[b]);
            } else {
                let i = choose|i: int|
                    0 <= i < init.len() && ms[i].0 == prev[a].0 && init[i] == Some(prev[a].1);
                assert(out[a] == prev[a]);
                assert(out[b].0 == ms[rs.len() - 1].0);
                assert(ms[i].0 != ms[rs.len() - 1].0);
            }
        }
    }
}

/// A well-formed object stays well formed when it takes a new member whose
/// value is well formed.
pub proof fn lemma_with_member_well_formed(j: Json, key: Seq<char>, v: Json)
    requires
        well_formed(j),
        well_formed(v),
    ensures
        well_formed(with_member(j, key, v)),
{
    if lacks_member(j, key) {
        let ms = j->Object_0;
        let out = ms.push((key, v));
        lemma_key_index(ms, key);
        assert forall|a: int, b: int| 0 <= a < b < out.len() implies (#[trigger] out[a]).0 != (
        #[trigger] out[b]).0 by {
            if b < ms.len() {
                assert(out[a] == ms[a] && out[b] == ms[b]);
            } else {
                assert(out[a] == ms[a]);
            }
        }
        assert forall|i: int| 0 <= i < out.len() implies well_formed((#[trigger] out[i]).1) by {
            if i < ms.len() {
                assert(out[i] == ms[i]);
            }
        }
    }
}

/// Editing the matches of a path keeps a tree well formed, where the values
/// that the edit brings are well formed.
pub proof fn lemma_rewritten_well_formed(j: Json, p: Seq<Seg>, e: EditModel, start: int)
    requires
        well_formed(j),
        edit_well_formed(e),
    ensures
        rewritten(j, p, e, start) is Some ==> well_formed(rewritten(j, p, e, start)->0),
    decreases p.len(),
{
    if p.len() == 0 {
        match e {
            EditModel::Insert(k, v) => {
                lemma_with_member_well_formed(j, k, v);
            },
            _ => {},
        }
    } else {
        let rs = results(j, p, e, start);
        assert forall|i: int| 0 <= i < rs.len() && rs[i] is Some implies well_formed(
            (#[trigger] rs[i])->0,
        ) by {
            if selects(p[0], j, i) {
                match j {
                    Json::Array(xs) => {
                        assert(well_formed(xs[i]));
                    },
                    Json::Object(ms) => {
                        assert(well_formed(ms[i].1));
                    },
                    _ => {},
                }
                lemma_rewritten_well_formed(
                    children(j)[i],
                    p.skip(1),
                    e,
                    start + targets_upto(j, p, i as nat).len(),
                );
            } else {
                match j {
                    Json::Array(xs) => {
                        assert(well_formed(xs[i]));
                    },
                    Json::Object(ms) => {
                        assert(well_formed(ms[i].1));
                    },
                    _ => {},
                }
            }
        }
        match j {
            Json::Array(xs) => {
                let out = kept(rs);
                lemma_kept(rs);
                assert forall|k: int| 0 <= k < out.len() implies well_formed(#[trigger] out[k]) by {
                    let i = choose|i: int| 0 <= i < rs.len() && rs[i] == Some(out[k]);
                    assert(well_formed(rs[i]->0));
                }
            },
            Json::Object(ms) => {
                let out = kept_members(ms, rs);
                lemma_kept_members(ms, rs);
                lemma_kept_members_distinct(ms, rs);
                assert forall|k: int| 0 <= k < out.len() implies well_formed(
                    (#[trigger] out[k]).1,
                ) by {
                    let i = choose|i: int|
                        0 <= i < rs.len() && ms[i].0 == out[k].0 && rs[i] == Some(out[k].1);
                    assert(well_formed(rs[i]->0));
                }
            },
            _ => {},
        }
    }
}

/// Every match in a well-formed tree is well formed.
pub proof fn lemma_targets_well_formed(j: Json, p: Seq<Seg>)
    requires
        well_formed(j),
    ensures
        all_well_formed(targets(j, p)),
    decreases p.len(), 1nat, 0nat,
{
    if p.len() > 0 {
        lemma_targets_upto_well_formed(j, p, children(j).len());
    }
}

/// Every match in the first children of a well-formed tree is well formed.
pub proof fn lemma_targets_upto_well_formed(j: Json, p: Seq<Seg>, n: nat)
    requires
        well_formed(j),
        p.len() > 0,
        n <= children(j).len(),
    ensures
        all_well_formed(targets_upto(j, p, n)),
    decreases p.len(), 0nat, n,
{
    if n > 0 {
        lemma_targets_upto_well_formed(j, p, (n - 1) as nat);
        if selects(p[0], j, n - 1) {
            match j {
                Json::Array(xs) => {
                    assert(well_formed(xs[n - 1]));
                },
                Json::Object(ms) => {
                    assert(well_formed(ms[n - 1].1));
                },
                _ => {},
            }
            lemma_targets_well_formed(children(j)[n - 1], p.skip(1));
        }
    }
}

/// Where every result is a value, every value stays, in its place.
pub proof fn lemma_kept_all(rs: Seq<Option<Json>>)
    requires
        forall|i: int| 0 <= i < rs.len() ==> (#[trigger] rs[i]) is Some,
    ensures
        kept(rs).len() == rs.len(),
        forall|i: int| 0 <= i < rs.len() ==> #[trigger] kept(rs)[i] == rs[i]->0,
    decreases rs.len(),
{
    if rs.len() > 0 {
        let init = rs.drop_last();
        assert forall|i: int| 0 <= i < init.len() implies (#[trigger] init[i]) is Some by {
            assert(init[i] == rs[i]);
        }
        lemma_kept_all(init);
        assert(rs[rs.len() - 1] is Some);
    }
}

/// Where every result is a value, every member stays, in its place and
/// under its name.
pub proof fn lemma_kept_members_all(ms: Seq<(Seq<char>, Json)>, rs: Seq<Option<Json>>)
    requires
        rs.len() <= ms.len(),
        forall|i: int| 0 <= i < rs.len() ==> (#[trigger] rs[i]) is Some,
    ensures
        kept_members(ms, rs).len() == rs.len(),
        forall|i: int|
            0 <= i < rs.len() ==> #[trigger] kept_members(ms, rs)[i] == (ms[i].0, rs[i]->0),
    decreases rs.len(),
{
    if rs.len() > 0 {
        let init = rs.drop_last();
        assert forall|i: int| 0 <= i < init.len() implies (#[trigger] init[i]) is Some by {
            assert(init[i] == rs[i]);
        }
        lemma_kept_members_all(ms, init);
        assert(rs[rs.len() - 1] is Some);
    }
}

/// A tree in which the path matches nothing stays as it is, whatever the
/// edit.
pub proof fn lemma_unmatched_unchanged(j: Json, p: Seq<Seg>, e: EditModel, start: int)
    requires
        targets(j, p).len() == 0,
    ensures
        rewritten(j, p, e, start) == Some(j),
    decreases p.len(),
{
    let rs = results(j, p, e, start);
    let cs = children(j);
    assert forall|i: int| 0 <= i < cs.len() implies #[trigger] rs[i] == Some(cs[i]) by {
        if selects(p[0], j, i) {
            lemma_targets_upto_grows(j, p, (i + 1) as nat, cs.len());
            assert(targets_upto(j, p, (i + 1) as nat) == targets_upto(j, p, i as nat) + targets(
                cs[i],
                p.skip(1),
            ));
            assert(targets(cs[i], p.skip(1)).len() == 0);
            lemma_unmatched_unchanged(
                cs[i],
                p.skip(1),
                e,
                start + targets_upto(j, p, i as nat).len(),
            );
        }
    }
    match j {
        Json::Array(xs) => {
            lemma_kept_all(rs);
            assert(kept(rs) =~= xs);
        },
        Json::Object(ms) => {
            lemma_kept_members_all(ms, rs);
            assert(kept_members(ms, rs) =~= ms);
        },
        _ => {},
    }
}

/// The value `v`, `n` times.
pub open spec fn repeated(v: Json, n: nat) -> Seq<Json> {
    Seq::new(n, |i: int| v)
}

/// Once every match of a path has been set to `v`, the path matches as many
/// values as before, and each is `v`.
pub proof fn lemma_put_then_targets(j: Json, p: Seq<Seg>, v: Json, start: int)
    ensures
        rewritten(j, p, EditModel::Put(v), start) is Some,
        targets(rewritten(j, p, EditModel::Put(v), start)->0, p) == repeated(
            v,
            targets(j, p).len(),
        ),
    decreases p.len(), 1nat, 0nat,
{
    if p.len() == 0 {
        assert(seq![v] =~= repeated(v, 1));
    } else {
        match j {
            Json::Array(_) => {
                lemma_put_upto(j, p, v, start, children(j).len());
            },
            Json::Object(_) => {
                lemma_put_upto(j, p, v, start, children(j).len());
            },
            _ => {
                assert(targets(j, p) =~= repeated(v, 0));
            },
        }
    }
}

/// The same, of the matches in the first `n` children.
pub proof fn lemma_put_upto(j: Json, p: Seq<Seg>, v: Json, start: int, n: nat)
    requires
        p.len() > 0,
        j is Array || j is Object,
        n <= children(j).len(),
    ensures
        rewritten(j, p, EditModel::Put(v), start) is Some,
        children(rewritten(j, p, EditModel::Put(v), start)->0).len() == children(j).len(),
        targets_upto(rewritten(j, p, EditModel::Put(v), start)->0, p, n) == repeated(
            v,
            targets_upto(j, p, n).len(),
        ),
    decreases p.len(), 0nat, n,
{
    let e = EditModel::Put(v);
    let r = rewritten(j, p, e, start)->0;
    let rs = results(j, p, e, start);
    let cs = children(j);
    assert forall|i: int| 0 <= i < rs.len() implies (#[trigger] rs[i]) is Some by {
        if selects(p[0], j, i) {
            lemma_put_then_targets(
                cs[i],
                p.skip(1),
                v,
                start + targets_upto(j, p, i as nat).len(),
            );
        }
    }
    match j {
        Json::Array(xs) => {
            lemma_kept_all(rs);
        },
        Json::Object(ms) => {
            lemma_kept_members_all(ms, rs);
            assert(children(r).len() == cs.len());
        },
        _ => {},
    }
    if n == 0 {
        assert(targets_upto(r, p, 0) =~= repeated(v, 0));
    } else {
        lemma_put_upto(j, p, v, start, (n - 1) as nat);
        let i = n - 1;
        assert(children(r)[i] == rs[i]->0);
        assert(selects(p[0], r, i) == selects(p[0], j, i));
        if selects(p[0], j, i) {
            lemma_put_then_targets(
                cs[i],
                p.skip(1),
                v,
                start + targets_upto(j, p, i as nat).len(),
            );
            let a = targets_upto(j, p, i as nat).len();
            let k = targets(cs[i], p.skip(1)).len();
            assert(repeated(v, a) + repeated(v, k) =~= repeated(v, a + k));
        }
    }
}

} // verus!
