//! Structural differences between two specs, by their JSON documents.
//!
//! Each document is given as a tree of nodes: every node carries its compact JSON
//! text, and an object node its members (keys in order).  Objects are compared member
//! by member along dot-delimited paths; anything else is compared as a whole.
use vstd::prelude::*;

use crate::graph::{lemma_less_total, lemma_less_transitive, seq_less};
use crate::text::str_eq;

verus! {

/// One structural change between two documents.
#[derive(Debug, Clone, PartialEq, Eq)]
pub enum Change {
    /// A field or key was added (exists in new but not old).
    Added {
        /// Dot-delimited path to the field.
        path: String,
        /// JSON text of the new value.
        value: String,
    },
    /// A field or key was removed (exists in old but not new).
    Removed {
        /// Dot-delimited path to the field.
        path: String,
        /// JSON text of the old value.
        value: String,
    },
    /// A field's value changed.
    Modified {
        /// Dot-delimited path to the field.
        path: String,
        /// JSON text of the old value.
        old: String,
        /// JSON text of the new value.
        new: String,
    },
}

/// A change by its texts.
pub enum ChangeModel {
    Added(Seq<char>, Seq<char>),
    Removed(Seq<char>, Seq<char>),
    Modified(Seq<char>, Seq<char>, Seq<char>),
}

/// The texts of a change.
pub open spec fn change_model(c: Change) -> ChangeModel {
    match c {
        Change::Added { path, value } => ChangeModel::Added(path@, value@),
        Change::Removed { path, value } => ChangeModel::Removed(path@, value@),
        Change::Modified { path, old, new } => ChangeModel::Modified(path@, old@, new@),
    }
}

/// The path of a change.
pub open spec fn change_path(c: ChangeModel) -> Seq<char> {
    match c {
        ChangeModel::Added(p, v) => p,
        ChangeModel::Removed(p, v) => p,
        ChangeModel::Modified(p, o, n) => p,
    }
}

/// The texts of a list of changes.
pub open spec fn change_models(v: Seq<Change>) -> Seq<ChangeModel> {
    v.map_values(|c: Change| change_model(c))
}

/// A JSON document node: its compact text and, for an object, its members in order.
pub struct DiffNode {
    /// The node's JSON text.
    pub text: String,
    /// The members of an object node.
    pub members: Option<Vec<(String, DiffNode)>>,
}

/// A node by its texts.
pub enum NodeModel {
    Node(Seq<char>, Option<Seq<(Seq<char>, NodeModel)>>),
}

/// The texts of a node.
pub open spec fn node_model(n: DiffNode) -> NodeModel
    decreases n, 0int,
{
    NodeModel::Node(
        n.text@,
        match n.members {
            Some(m) => Some(members_upto(m@, m@.len() as int)),
            None => None,
        },
    )
}

/// The texts of the first `k` members.
pub open spec fn members_upto(ms: Seq<(String, DiffNode)>, k: int) -> Seq<(Seq<char>, NodeModel)>
    decreases ms, k,
{
    if k <= 0 || k > ms.len() {
        Seq::empty()
    } else {
        members_upto(ms, k - 1).push((ms[k - 1].0@, node_model(ms[k - 1].1)))
    }
}

proof fn lemma_members_upto(ms: Seq<(String, DiffNode)>, k: int)
    requires
        0 <= k <= ms.len(),
    ensures
        members_upto(ms, k) == members_model(ms.take(k)),
    decreases k,
{
    if k > 0 {
        lemma_members_upto(ms, k - 1);
        assert(members_model(ms.take(k)) =~= members_model(ms.take(k - 1)).push(
            (ms[k - 1].0@, node_model(ms[k - 1].1)),
        ));
    } else {
        assert(members_model(ms.take(0)) =~= Seq::<(Seq<char>, NodeModel)>::empty());
    }
}

/// The texts of a node's members.
pub open spec fn members_model(ms: Seq<(String, DiffNode)>) -> Seq<(Seq<char>, NodeModel)> {
    ms.map_values(|e: (String, DiffNode)| (e.0@, node_model(e.1)))
}

proof fn lemma_node_model(n: DiffNode)
    ensures
        node_model(n) == NodeModel::Node(
            n.text@,
            match n.members {
                Some(m) => Some(members_model(m@)),
                None => None,
            },
        ),
{
    match n.members {
        Some(m) => {
            lemma_members_upto(m@, m@.len() as int);
            assert(m@.take(m@.len() as int) =~= m@);
        },
        None => {},
    }
}

/// The path of member `k` under `path`.
pub open spec fn child_path(path: Seq<char>, k: Seq<char>) -> Seq<char> {
    if path.len() == 0 {
        k
    } else {
        path + "."@ + k
    }
}

/// The value under key `k` among `members`, if any (the first).
pub open spec fn member(members: Seq<(Seq<char>, NodeModel)>, k: Seq<char>) -> Option<NodeModel>
    decreases members.len(),
{
    if members.len() == 0 {
        None
    } else if members[0].0 == k {
        Some(members[0].1)
    } else {
        member(members.drop_first(), k)
    }
}

/// The changes between two nodes at `path`: objects member by member, anything else as
/// a whole when the texts differ.
pub open spec fn node_changes(path: Seq<char>, old: NodeModel, new: NodeModel) -> Seq<ChangeModel>
    decreases old, 0int,
{
    match (old, new) {
        (NodeModel::Node(ot, Some(a)), NodeModel::Node(nt, Some(b))) => old_member_changes(path, a, b, a.len() as int)
            + added_changes(path, a, b, b.len() as int),
        (NodeModel::Node(ot, om), NodeModel::Node(nt, nm)) => if ot != nt {
            seq![ChangeModel::Modified(path, ot, nt)]
        } else {
            Seq::empty()
        },
    }
}

/// The changes of the first `k` old members: changed or removed.
pub open spec fn old_member_changes(
    path: Seq<char>,
    a: Seq<(Seq<char>, NodeModel)>,
    b: Seq<(Seq<char>, NodeModel)>,
    k: int,
) -> Seq<ChangeModel>
    decreases a, k,
{
    if k <= 0 || k > a.len() {
        Seq::empty()
    } else {
        let rest = old_member_changes(path, a, b, k - 1);
        let (key, v) = a[k - 1];
        match member(b, key) {
            Some(bv) => rest + node_changes(child_path(path, key), v, bv),
            None => rest.push(ChangeModel::Removed(child_path(path, key), node_text(v))),
        }
    }
}

/// The text of a node.
pub open spec fn node_text(n: NodeModel) -> Seq<char> {
    match n {
        NodeModel::Node(t, m) => t,
    }
}

/// The additions among the first `k` new members.
pub open spec fn added_changes(
    path: Seq<char>,
    a: Seq<(Seq<char>, NodeModel)>,
    b: Seq<(Seq<char>, NodeModel)>,
    k: int,
) -> Seq<ChangeModel>
    decreases k,
{
    if k <= 0 || k > b.len() {
        Seq::empty()
    } else {
        let rest = added_changes(path, a, b, k - 1);
        if member(a, b[k - 1].0) is Some {
            rest
        } else {
            rest.push(ChangeModel::Added(child_path(path, b[k - 1].0), node_text(b[k - 1].1)))
        }
    }
}

/// `s` with `c` placed after every change whose path does not sort after `c`'s, when
/// `s` is in path order.
pub open spec fn insert_by_path(s: Seq<ChangeModel>, c: ChangeModel) -> Seq<ChangeModel>
    decreases s.len(),
{
    if s.len() == 0 {
        seq![c]
    } else if seq_less(change_path(c), change_path(s.last())) {
        insert_by_path(s.drop_last(), c).push(s.last())
    } else {
        s.push(c)
    }
}

/// The changes in path order, those with equal paths in the order they came.
pub open spec fn sort_by_path(s: Seq<ChangeModel>) -> Seq<ChangeModel>
    decreases s.len(),
{
    if s.len() == 0 {
        Seq::empty()
    } else {
        insert_by_path(sort_by_path(s.drop_last()), s.last())
    }
}

/// No change of `s` has a path that sorts before that of an earlier one.
pub open spec fn paths_sorted(s: Seq<ChangeModel>) -> bool {
    forall|i: int, j: int| 0 <= i < j < s.len() ==> !seq_less(change_path(#[trigger] s[j]), change_path(#[trigger] s[i]))
}

/// No change of `s` has a path that sorts after `b`.
spec fn paths_at_most(s: Seq<ChangeModel>, b: Seq<char>) -> bool {
    forall|i: int| 0 <= i < s.len() ==> !seq_less(b, change_path(#[trigger] s[i]))
}

proof fn lemma_at_most_trans(x: Seq<char>, y: Seq<char>, z: Seq<char>)
    requires
        !seq_less(y, x),
        !seq_less(z, y),
    ensures
        !seq_less(z, x),
{
    if seq_less(z, x) {
        if x != y {
            lemma_less_total(x, y);
            lemma_less_transitive(z, x, y);
        }
    }
}

proof fn lemma_insert_bound(s: Seq<ChangeModel>, c: ChangeModel, b: Seq<char>)
    requires
        paths_at_most(s, b),
        !seq_less(b, change_path(c)),
    ensures
        paths_at_most(insert_by_path(s, c), b),
    decreases s.len(),
{
    if s.len() > 0 {
        let r = insert_by_path(s, c);
        if seq_less(change_path(c), change_path(s.last())) {
            lemma_insert_bound(s.drop_last(), c, b);
            let t = insert_by_path(s.drop_last(), c);
            assert forall|i: int| 0 <= i < r.len() implies !seq_less(b, change_path(#[trigger] r[i])) by {
                if i < t.len() {
                    assert(r[i] == t[i]);
                } else {
                    assert(r[i] == s.last());
                    assert(s.last() == s[s.len() - 1]);
                }
            }
        } else {
            assert forall|i: int| 0 <= i < r.len() implies !seq_less(b, change_path(#[trigger] r[i])) by {
                if i < s.len() {
                    assert(r[i] == s[i]);
                }
            }
        }
    }
}

proof fn lemma_insert_sorted(s: Seq<ChangeModel>, c: ChangeModel)
    requires
        paths_sorted(s),
    ensures
        paths_sorted(insert_by_path(s, c)),
        insert_by_path(s, c).len() == s.len() + 1,
    decreases s.len(),
{
    if s.len() > 0 {
        let last = s.last();
        let init = s.drop_last();
        let r = insert_by_path(s, c);
        assert(paths_sorted(init)) by {
            assert forall|i: int, j: int| 0 <= i < j < init.len() implies !seq_less(
                change_path(#[trigger] init[j]),
                change_path(#[trigger] init[i]),
            ) by {
                assert(init[i] == s[i] && init[j] == s[j]);
            }
        }
        assert(paths_at_most(init, change_path(last))) by {
            assert forall|i: int| 0 <= i < init.len() implies !seq_less(change_path(last), change_path(#[trigger] init[i])) by {
                assert(init[i] == s[i]);
                assert(last == s[s.len() - 1]);
            }
        }
        if seq_less(change_path(c), change_path(last)) {
            lemma_insert_sorted(init, c);
            let t = insert_by_path(init, c);
            crate::graph::lemma_less_irreflexive(change_path(last));
            if seq_less(change_path(last), change_path(c)) {
                lemma_less_transitive(change_path(c), change_path(last), change_path(c));
                crate::graph::lemma_less_irreflexive(change_path(c));
            }
            lemma_insert_bound(init, c, change_path(last));
            assert forall|i: int, j: int| 0 <= i < j < r.len() implies !seq_less(
                change_path(#[trigger] r[j]),
                change_path(#[trigger] r[i]),
            ) by {
                assert(r[i] == t[i]);
                if j < t.len() {
                    assert(r[j] == t[j]);
                } else {
                    assert(r[j] == last);
                }
            }
        } else {
            assert forall|i: int, j: int| 0 <= i < j < r.len() implies !seq_less(
                change_path(#[trigger] r[j]),
                change_path(#[trigger] r[i]),
            ) by {
                assert(r[i] == s[i]);
                if j < s.len() {
                    assert(r[j] == s[j]);
                } else {
                    assert(r[j] == c);
                    if i < init.len() {
                        assert(s[i] == init[i]);
                        lemma_at_most_trans(change_path(s[i]), change_path(last), change_path(c));
                    } else {
                        assert(s[i] == last);
                    }
                }
            }
        }
    }
}

/// Changes sorted by path come out in path order, none lost or added.
pub proof fn lemma_sorted_by_path(s: Seq<ChangeModel>)
    ensures
        paths_sorted(sort_by_path(s)),
        sort_by_path(s).len() == s.len(),
    decreases s.len(),
{
    if s.len() > 0 {
        lemma_sorted_by_path(s.drop_last());
        lemma_insert_sorted(sort_by_path(s.drop_last()), s.last());
    }
}

fn path_of(c: &Change) -> (r: &String)
    ensures
        r@ == change_path(change_model(*c)),
{
    match c {
        Change::Added { path, .. } => path,
        Change::Removed { path, .. } => path,
        Change::Modified { path, .. } => path,
    }
}

fn copy_change(c: &Change) -> (r: Change)
    ensures
        change_model(r) == change_model(*c),
{
    match c {
        Change::Added { path, value } => Change::Added { path: path.clone(), value: value.clone() },
        Change::Removed { path, value } => Change::Removed { path: path.clone(), value: value.clone() },
        Change::Modified { path, old, new } => Change::Modified {
            path: path.clone(),
            old: old.clone(),
            new: new.clone(),
        },
    }
}

fn child_path_of(path: &str, k: &str) -> (r: String)
    ensures
        r@ == child_path(path@, k@),
{
    if path.unicode_len() == 0 {
        k.to_owned()
    } else {
        let mut r = path.to_owned();
        r.append(".");
        r.append(k);
        r
    }
}

fn find_member<'a>(members: &'a Vec<(String, DiffNode)>, k: &str) -> (r: Option<&'a DiffNode>)
    ensures
        match r {
            Some(n) => member(members_model(members@), k@) == Some(node_model(*n)),
            None => member(members_model(members@), k@) is None,
        },
{
    let ghost ms = members_model(members@);
    let mut i: usize = 0;
    assert(ms.skip(0) =~= ms);
    while i < members.len()
        invariant
            ms == members_model(members@),
            i <= members@.len(),
            member(ms, k@) == member(ms.skip(i as int), k@),
        decreases members@.len() - i,
    {
        assert(ms.skip(i as int)[0] == ms[i as int]);
        if str_eq(members[i].0.as_str(), k) {
            return Some(&members[i].1);
        }
        assert(ms.skip(i as int).drop_first() =~= ms.skip(i + 1));
        i = i + 1;
    }
    None
}

/// Appends the changes between `old_node` and `new_node` at `path`.
pub fn diff_nodes(path: &str, old_node: &DiffNode, new_node: &DiffNode, changes: &mut Vec<Change>)
    ensures
        change_models(final(changes)@) == change_models(old(changes)@) + node_changes(
            path@,
            node_model(*old_node),
            node_model(*new_node),
        ),
    decreases old_node,
{
    let ghost start = change_models(changes@);
    match (&old_node.members, &new_node.members) {
        (Some(a), Some(b)) => {
            let ghost am = members_model(a@);
            let ghost bm = members_model(b@);
            assert(old_node.members == Some(*a));
            assert(new_node.members == Some(*b));
            proof {
                lemma_node_model(*old_node);
                lemma_node_model(*new_node);
            }
            let mut i: usize = 0;
            while i < a.len()
                invariant
                    am == members_model(a@),
                    bm == members_model(b@),
                    old_node.members == Some(*a),
                    i <= a@.len(),
                    change_models(changes@) == start + old_member_changes(path@, am, bm, i as int),
                decreases a@.len() - i,
            {
                assert(decreases_to!(*old_node => old_node.members));
                assert(decreases_to!(old_node.members => old_node.members->0));
                assert(old_node.members->0 == *a);
                assert(decreases_to!(*a => a@));
                assert(decreases_to!(a@ => a@[i as int]));
                assert(decreases_to!(a@[i as int] => a@[i as int].1));
                let key = &a[i].0;
                let child = child_path_of(path, key.as_str());
                let ghost before = change_models(changes@);
                match find_member(b, key.as_str()) {
                    Some(bv) => {
                        diff_nodes(child.as_str(), &a[i].1, bv, changes);
                        assert(change_models(changes@) =~= start + old_member_changes(
                            path@,
                            am,
                            bm,
                            i + 1,
                        ));
                    },
                    None => {
                        let c = Change::Removed { path: child, value: a[i].1.text.clone() };
                        changes.push(c);
                        assert(change_models(changes@) =~= before.push(change_model(c)));
                        assert(change_models(changes@) =~= start + old_member_changes(
                            path@,
                            am,
                            bm,
                            i + 1,
                        ));
                    },
                }
                i = i + 1;
            }
            let ghost mid = change_models(changes@);
            let mut j: usize = 0;
            assert(mid =~= mid + added_changes(path@, am, bm, 0));
            while j < b.len()
                invariant
                    am == members_model(a@),
                    bm == members_model(b@),
                    j <= b@.len(),
                    change_models(changes@) == mid + added_changes(path@, am, bm, j as int),
                decreases b@.len() - j,
            {
                let key = &b[j].0;
                let ghost before = change_models(changes@);
                match find_member(a, key.as_str()) {
                    Some(_) => {},
                    None => {
                        let child = child_path_of(path, key.as_str());
                        let c = Change::Added { path: child, value: b[j].1.text.clone() };
                        changes.push(c);
                        assert(change_models(changes@) =~= before.push(change_model(c)));
                    },
                }
                assert(change_models(changes@) =~= mid + added_changes(path@, am, bm, j + 1));
                j = j + 1;
            }
            assert(change_models(changes@) =~= start + node_changes(path@, node_model(*old_node), node_model(*new_node)));
        },
        _ => {
            proof {
                lemma_node_model(*old_node);
                lemma_node_model(*new_node);
            }
            if !str_eq(old_node.text.as_str(), new_node.text.as_str()) {
                let c = Change::Modified {
                    path: path.to_owned(),
                    old: old_node.text.clone(),
                    new: new_node.text.clone(),
                };
                changes.push(c);
                assert(change_models(changes@) =~= start.push(change_model(c)));
            }
            assert(change_models(changes@) =~= start + node_changes(path@, node_model(*old_node), node_model(*new_node)));
        },
    }
}

/// Places `c` into the path-ordered `v`, after every change whose path does not sort
/// after `c`'s.
fn insert_change(v: &mut Vec<Change>, c: Change)
    ensures
        change_models(final(v)@) == insert_by_path(change_models(old(v)@), change_model(c)),
    decreases old(v)@.len(),
{
    let n = v.len();
    if n == 0 {
        v.push(c);
        assert(change_models(v@) =~= seq![change_model(c)]);
        return;
    }
    let ghost before = change_models(v@);
    let less = crate::graph::str_less(path_of(&c).as_str(), path_of(&v[n - 1]).as_str());
    if less {
        let last = v.pop().unwrap();
        assert(change_models(v@) =~= before.drop_last());
        insert_change(v, c);
        let ghost mid = change_models(v@);
        v.push(last);
        assert(change_models(v@) =~= mid.push(change_model(last)));
    } else {
        v.push(c);
        assert(change_models(v@) =~= before.push(change_model(c)));
    }
}

/// The changes between two documents, in path order.
pub fn diff_trees(old: &DiffNode, new: &DiffNode) -> (r: Vec<Change>)
    ensures
        change_models(r@) == sort_by_path(node_changes(""@, node_model(*old), node_model(*new))),
        paths_sorted(change_models(r@)),
        r@.len() == 0 <==> same_document(node_model(*old), node_model(*new)),
{
    proof {
        lemma_sorted_by_path(node_changes(""@, node_model(*old), node_model(*new)));
        lemma_no_changes_iff_same(""@, node_model(*old), node_model(*new));
    }
    let mut changes: Vec<Change> = Vec::new();
    diff_nodes("", old, new, &mut changes);
    assert(change_models(changes@) =~= node_changes(""@, node_model(*old), node_model(*new)));
    let ghost all = change_models(changes@);
    let mut sorted: Vec<Change> = Vec::new();
    let mut i: usize = 0;
    assert(all.take(0) =~= Seq::<ChangeModel>::empty());
    while i < changes.len()
        invariant
            all == change_models(changes@),
            i <= changes@.len(),
            change_models(sorted@) == sort_by_path(all.take(i as int)),
        decreases changes@.len() - i,
    {
        insert_change(&mut sorted, copy_change(&changes[i]));
        assert(all.take(i + 1).drop_last() =~= all.take(i as int));
        i = i + 1;
    }
    assert(all.take(changes@.len() as int) =~= all);
    sorted
}


// ---------------------------------------------------------------------------
// Laws
// ---------------------------------------------------------------------------

/// The keys of members.
pub open spec fn member_keys(ms: Seq<(Seq<char>, NodeModel)>) -> Seq<Seq<char>> {
    ms.map_values(|e: (Seq<char>, NodeModel)| e.0)
}

/// Every object in the tree lists each key once, as JSON objects do.
pub open spec fn keys_unique(n: NodeModel) -> bool
    decreases n, 0int,
{
    match n {
        NodeModel::Node(t, None) => true,
        NodeModel::Node(t, Some(ms)) => member_keys(ms).no_duplicates() && members_unique(ms, ms.len() as int),
    }
}

/// The first `k` members' trees list each key once.
pub open spec fn members_unique(ms: Seq<(Seq<char>, NodeModel)>, k: int) -> bool
    decreases ms, k,
{
    if k <= 0 || k > ms.len() {
        true
    } else {
        members_unique(ms, k - 1) && keys_unique(ms[k - 1].1)
    }
}

proof fn lemma_member_at(ms: Seq<(Seq<char>, NodeModel)>, i: int)
    requires
        member_keys(ms).no_duplicates(),
        0 <= i < ms.len(),
    ensures
        member(ms, ms[i].0) == Some(ms[i].1),
    decreases i,
{
    if i > 0 {
        let t = ms.drop_first();
        assert(member_keys(ms)[0] != member_keys(ms)[i]);
        assert(member_keys(t).no_duplicates()) by {
            assert forall|x: int, y: int| 0 <= x < t.len() && 0 <= y < t.len() && x != y implies member_keys(t)[x]
                != member_keys(t)[y] by {
                assert(member_keys(ms)[x + 1] != member_keys(ms)[y + 1]);
            }
        }
        lemma_member_at(t, i - 1);
        assert(t[i - 1] == ms[i]);
    }
}

proof fn lemma_members_unique_at(ms: Seq<(Seq<char>, NodeModel)>, k: int, i: int)
    requires
        members_unique(ms, k),
        0 <= i < k <= ms.len(),
    ensures
        keys_unique(ms[i].1),
    decreases k,
{
    if i < k - 1 {
        lemma_members_unique_at(ms, k - 1, i);
    }
}

proof fn lemma_old_members_unchanged(path: Seq<char>, a: Seq<(Seq<char>, NodeModel)>, k: int)
    requires
        member_keys(a).no_duplicates(),
        members_unique(a, a.len() as int),
        0 <= k <= a.len(),
    ensures
        old_member_changes(path, a, a, k) == Seq::<ChangeModel>::empty(),
    decreases a, k,
{
    if k > 0 {
        lemma_old_members_unchanged(path, a, k - 1);
        lemma_member_at(a, k - 1);
        lemma_members_unique_at(a, a.len() as int, k - 1);
        lemma_no_changes(child_path(path, a[k - 1].0), a[k - 1].1);
        assert(Seq::<ChangeModel>::empty() + Seq::<ChangeModel>::empty() =~= Seq::<ChangeModel>::empty());
    }
}

proof fn lemma_nothing_added(path: Seq<char>, a: Seq<(Seq<char>, NodeModel)>, k: int)
    requires
        member_keys(a).no_duplicates(),
        0 <= k <= a.len(),
    ensures
        added_changes(path, a, a, k) == Seq::<ChangeModel>::empty(),
    decreases k,
{
    if k > 0 {
        lemma_nothing_added(path, a, k - 1);
        lemma_member_at(a, k - 1);
    }
}

/// A document compared with itself has no changes.
pub proof fn lemma_no_changes(path: Seq<char>, n: NodeModel)
    requires
        keys_unique(n),
    ensures
        node_changes(path, n, n) == Seq::<ChangeModel>::empty(),
    decreases n, 1int,
{
    match n {
        NodeModel::Node(t, Some(a)) => {
            lemma_old_members_unchanged(path, a, a.len() as int);
            lemma_nothing_added(path, a, a.len() as int);
            assert(Seq::<ChangeModel>::empty() + Seq::<ChangeModel>::empty() =~= Seq::<ChangeModel>::empty());
        },
        NodeModel::Node(t, None) => {},
    }
}

/// `diff_trees` of a document and itself is empty.
pub proof fn lemma_identical_documents_no_diff(n: NodeModel)
    requires
        keys_unique(n),
    ensures
        sort_by_path(node_changes(""@, n, n)) == Seq::<ChangeModel>::empty(),
{
    lemma_no_changes(""@, n);
}

/// Two documents are the same: objects with the same keys whose members are the same
/// documents, or two other values (or a value and an object) with the same text.
pub open spec fn same_document(a: NodeModel, b: NodeModel) -> bool
    decreases a, 0int,
{
    match (a, b) {
        (NodeModel::Node(ta, Some(ma)), NodeModel::Node(tb, Some(mb))) => same_members(ma, mb, ma.len() as int)
            && keys_within(mb, ma, mb.len() as int),
        (NodeModel::Node(ta, oa), NodeModel::Node(tb, ob)) => ta == tb,
    }
}

/// Each of the first `k` members of `ma` has a member under its key in `mb` that is the
/// same document.
pub open spec fn same_members(ma: Seq<(Seq<char>, NodeModel)>, mb: Seq<(Seq<char>, NodeModel)>, k: int) -> bool
    decreases ma, k,
{
    if k <= 0 || k > ma.len() {
        true
    } else {
        same_members(ma, mb, k - 1) && match member(mb, ma[k - 1].0) {
            Some(v) => same_document(ma[k - 1].1, v),
            None => false,
        }
    }
}

/// Each key of the first `k` members of `mb` is a key of `ma`.
pub open spec fn keys_within(mb: Seq<(Seq<char>, NodeModel)>, ma: Seq<(Seq<char>, NodeModel)>, k: int) -> bool
    decreases k,
{
    if k <= 0 || k > mb.len() {
        true
    } else {
        keys_within(mb, ma, k - 1) && member(ma, mb[k - 1].0) is Some
    }
}

/// Two documents have no changes between them exactly when they are the same document.
pub proof fn lemma_no_changes_iff_same(path: Seq<char>, a: NodeModel, b: NodeModel)
    ensures
        node_changes(path, a, b).len() == 0 <==> same_document(a, b),
    decreases a, 1int,
{
    match (a, b) {
        (NodeModel::Node(ta, Some(ma)), NodeModel::Node(tb, Some(mb))) => {
            lemma_old_members_iff(path, ma, mb, ma.len() as int);
            lemma_added_iff(path, ma, mb, mb.len() as int);
        },
        _ => {},
    }
}

proof fn lemma_old_members_iff(
    path: Seq<char>,
    ma: Seq<(Seq<char>, NodeModel)>,
    mb: Seq<(Seq<char>, NodeModel)>,
    k: int,
)
    ensures
        old_member_changes(path, ma, mb, k).len() == 0 <==> same_members(ma, mb, k),
    decreases ma, k,
{
    if 0 < k <= ma.len() {
        lemma_old_members_iff(path, ma, mb, k - 1);
        let (key, v) = ma[k - 1];
        match member(mb, key) {
            Some(bv) => {
                lemma_no_changes_iff_same(child_path(path, key), v, bv);
            },
            None => {},
        }
    }
}

proof fn lemma_added_iff(
    path: Seq<char>,
    ma: Seq<(Seq<char>, NodeModel)>,
    mb: Seq<(Seq<char>, NodeModel)>,
    k: int,
)
    ensures
        added_changes(path, ma, mb, k).len() == 0 <==> keys_within(mb, ma, k),
    decreases k,
{
    if 0 < k <= mb.len() {
        lemma_added_iff(path, ma, mb, k - 1);
    }
}

} // verus!
