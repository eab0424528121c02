//! Properties of the library that span several operations.

use vstd::prelude::*;
use vstd::utf8::*;
use crate::auth::{starts_with, trim_start_all};
use crate::document::{actions_view, after_delete, after_insert, ActionView, DocumentView, newer_than};
use crate::project::{AccessLevel, ManagerView, ProjectView};
use crate::protocol::{
    editor_granted_text, fresh_document, handled, is_error, is_update, message_project, read_only_text, ClientMessage,
    ServerMessage, SessionView,
};
use crate::file_tree::{after_add, node_lookup, EntryKind, FileNode};
use crate::path::{lemma_split_len, path_parts, slash, split_bytes};
use crate::ids::uuid_hyphenated;
use crate::runner::join_spaces;
use crate::text::{boundary, splice, utf8};

verus! {

broadcast use vstd::utf8::group_utf8_lib;

/// In the concatenation of two valid UTF-8 sequences, the point where they
/// meet is a character boundary.
pub proof fn lemma_boundary_at_join(a: Seq<u8>, b: Seq<u8>)
    requires
        valid_utf8(a),
        valid_utf8(b),
    ensures
        valid_utf8(a + b),
        is_char_boundary(a + b, a.len() as int),
    decreases a.len(),
{
    valid_utf8_concat(a, b);
    if a.len() > 0 {
        let k = length_of_first_scalar(a);
        let ab = a + b;
        assert(ab[0] == a[0]);
        assert(length_of_first_scalar(ab) == k);
        assert(valid_utf8(pop_first_scalar(a)));
        assert(pop_first_scalar(ab) =~= pop_first_scalar(a) + b);
        lemma_boundary_at_join(pop_first_scalar(a), b);
    }
}

/// An insertion is undone by deleting the bytes it inserted: both ends of
/// those bytes are character boundaries, and deleting them gives back the
/// text and the CRDT identities from before the insertion; the history keeps
/// both edits, and the timestamp has moved on by two.
pub proof fn law_delete_undoes_insert(d: DocumentView, pos: nat, t: Seq<char>)
    requires
        boundary(d.text, pos as int),
        d.units.len() == utf8(d.text).len(),
    ensures
        ({
            let d1 = after_insert(d, pos, t);
            let end = pos + utf8(t).len();
            let d2 = after_delete(d1, pos, end as nat);
            &&& boundary(d1.text, pos as int)
            &&& boundary(d1.text, end as int)
            &&& d2.text == d.text
            &&& d2.units == d.units
            &&& d2.replica_id == d.replica_id
            &&& d2.version == d.version + utf8(t).len()
            &&& d2.timestamp == d.timestamp + 2
            &&& d2.history == d.history.push(
                ActionView::Insertion { pos, text: t, timestamp: d.timestamp + 1 },
            ).push(
                ActionView::Deletion {
                    range_start: pos,
                    range_end: end as nat,
                    timestamp: d.timestamp + 2,
                },
            )
        }),
{
    let b = utf8(d.text);
    let tb = utf8(t);
    let p = pos as int;
    assert(p <= b.len());
    let pre = b.subrange(0, p);
    let post = b.subrange(p, b.len() as int);
    assert(valid_utf8(pre) && valid_utf8(post)) by {
        valid_utf8_split(b, p);
    }
    let nb = splice(b, p, p, tb);
    assert(nb == pre + tb + post);
    lemma_boundary_at_join(pre, tb);
    lemma_boundary_at_join(pre + tb, post);
    assert(pre + (tb + post) =~= nb);
    lemma_boundary_at_join(tb, post);
    lemma_boundary_at_join(pre, tb + post);
    let d1 = after_insert(d, pos, t);
    assert(utf8(d1.text) == nb) by {
        decode_utf8_encode_utf8(nb);
    }
    let end = p + tb.len();
    assert(splice(nb, p, end, Seq::empty()) =~= b);
    let u = d.units;
    let u1 = d1.units;
    assert(u1.take(p) + u1.skip(end) =~= u);
}

/// The histories that documents keep: the action at index `i` has timestamp
/// `i + 1`.
pub open spec fn numbered(h: Seq<ActionView>) -> bool {
    forall|i: int| 0 <= i < h.len() ==> (#[trigger] h[i]).timestamp() == i + 1
}

/// Synchronising from timestamp `last` gives exactly the actions after the
/// first `last` ones: nothing once `last` reaches the latest timestamp, the
/// whole history from timestamp 0.
pub proof fn law_operations_since(h: Seq<ActionView>, last: nat)
    requires
        numbered(h),
    ensures
        h.filter(newer_than(last)) == if last >= h.len() {
            Seq::<ActionView>::empty()
        } else {
            h.skip(last as int)
        },
    decreases h.len(),
{
    reveal(Seq::filter);
    if h.len() == 0 {
        assert(h.filter(newer_than(last)) =~= Seq::<ActionView>::empty());
    } else {
        let g = h.drop_last();
        assert forall|i: int| 0 <= i < g.len() implies (#[trigger] g[i]).timestamp() == i + 1 by {
            assert(g[i] == h[i]);
        }
        law_operations_since(g, last);
        assert(h.last().timestamp() == h.len());
        if last >= h.len() {
        } else if last == g.len() {
            assert(h.skip(last as int) =~= seq![h.last()]);
            assert(g.filter(newer_than(last)) =~= Seq::<ActionView>::empty());
            assert(h.filter(newer_than(last)) =~= seq![h.last()]);
        } else {
            assert(h.skip(last as int) =~= g.skip(last as int).push(h.last()));
        }
    }
}

/// After a file is added at `target`, `target` names a file and every proper
/// prefix of it a directory.
pub proof fn law_added_file_is_found(old_tree: FileNode, new_tree: FileNode, target: Seq<Seq<char>>)
    requires
        target.len() > 0,
        forall|p: Seq<Seq<char>>|
            #[trigger] node_lookup(new_tree, p) == after_add(node_lookup(old_tree, p), target, p),
    ensures
        node_lookup(new_tree, target) == Some(EntryKind::File),
        forall|k: int|
            0 <= k < target.len() ==> node_lookup(new_tree, #[trigger] target.take(k)) == Some(
                EntryKind::Directory,
            ),
{
    assert(node_lookup(new_tree, target) == after_add(node_lookup(old_tree, target), target, target));
    assert forall|k: int| 0 <= k < target.len() implies node_lookup(
        new_tree,
        #[trigger] target.take(k),
    ) == Some(EntryKind::Directory) by {
        let p = target.take(k);
        assert(node_lookup(new_tree, p) == after_add(node_lookup(old_tree, p), target, p));
        assert(p == target.take(p.len() as int));
    }
}

/// The pieces of a path, joined again with `/`.
pub open spec fn join_slash(parts: Seq<Seq<u8>>) -> Seq<u8>
    decreases parts.len(),
{
    if parts.len() <= 1 {
        if parts.len() == 1 {
            parts[0]
        } else {
            Seq::empty()
        }
    } else {
        parts[0] + seq![slash()] + join_slash(parts.drop_first())
    }
}

/// Splitting a path at `/` loses nothing: the pieces hold no `/`, and
/// joining them with `/` gives back the path.
pub proof fn law_split_then_join(b: Seq<u8>)
    ensures
        join_slash(split_bytes(b)) == b,
        forall|i: int, j: int|
            0 <= i < split_bytes(b).len() && 0 <= j < split_bytes(b)[i].len() ==> #[trigger] split_bytes(
                b,
            )[i][j] != slash(),
    decreases b.len(),
{
    if b.len() > 0 {
        let t = b.drop_first();
        law_split_then_join(t);
        lemma_split_len(t);
        let r = split_bytes(t);
        if b[0] == slash() {
            assert(split_bytes(b) == seq![Seq::<u8>::empty()] + r);
            assert((seq![Seq::<u8>::empty()] + r).drop_first() =~= r);
            assert(seq![b[0]] + t =~= b);
            assert(Seq::<u8>::empty() + seq![slash()] + join_slash(r) =~= b);
        } else {
            let s = split_bytes(b);
            assert(s == r.update(0, seq![b[0]] + r[0]));
            if r.len() == 1 {
                assert(join_slash(s) == seq![b[0]] + r[0]);
                assert(seq![b[0]] + t =~= b);
            } else {
                assert(s.drop_first() =~= r.drop_first());
                assert(join_slash(s) == (seq![b[0]] + r[0]) + seq![slash()] + join_slash(r.drop_first()));
                assert(join_slash(r) == r[0] + seq![slash()] + join_slash(r.drop_first()));
                assert(seq![b[0]] + t =~= b);
                assert((seq![b[0]] + r[0]) + seq![slash()] + join_slash(r.drop_first()) =~= seq![b[0]]
                    + (r[0] + seq![slash()] + join_slash(r.drop_first())));
            }
            assert forall|i: int, j: int|
                0 <= i < s.len() && 0 <= j < s[i].len() implies #[trigger] s[i][j] != slash() by {
                if i == 0 && j > 0 {
                    assert(s[0][j] == r[0][j - 1]);
                }
            }
        }
    } else {
        assert(split_bytes(b) == seq![Seq::<u8>::empty()]);
    }
}

/// A token read from a header never starts with `Bearer ` itself: every
/// leading repetition is removed.
pub proof fn law_token_has_no_prefix(b: Seq<u8>, p: Seq<u8>)
    requires
        p.len() > 0,
    ensures
        !starts_with(trim_start_all(b, p), p),
    decreases b.len(),
{
    if starts_with(b, p) {
        law_token_has_no_prefix(b.skip(p.len() as int), p);
    }
}

/// A read-only session cannot edit: an insertion or deletion it sends
/// changes nothing and is answered with the read-only error.
pub proof fn law_read_only_cannot_edit(
    m: ManagerView,
    m2: ManagerView,
    s: SessionView,
    s2: SessionView,
    msg: ClientMessage,
    r: ServerMessage,
)
    requires
        s.access == Some(AccessLevel::ReadOnly),
        msg is Insert || msg is Delete,
        handled(m, m2, s, s2, msg, r),
    ensures
        m2 == m,
        s2 == s,
        is_error(r, read_only_text()),
{
}

/// The project a message about access rights is about.
pub open spec fn access_target(msg: ClientMessage) -> u128 {
    match msg {
        ClientMessage::PermitAccess { project_id, .. } => project_id,
        ClientMessage::GrantEditor { project_id, .. } => project_id,
        _ => 0,
    }
}

/// Only a project's owner changes who may do what in it: from anyone else,
/// granting access or editor rights changes nothing.
pub proof fn law_only_owner_changes_access(
    m: ManagerView,
    m2: ManagerView,
    s: SessionView,
    s2: SessionView,
    msg: ClientMessage,
    r: ServerMessage,
)
    requires
        msg is PermitAccess || msg is GrantEditor,
        m.projects.contains_key(access_target(msg)),
        m.projects[access_target(msg)].owner != s.user_id,
        handled(m, m2, s, s2, msg, r),
    ensures
        m2 == m,
        s2 == s,
        r is Error,
{
}

/// A private project admits read-only members exactly with its password:
/// once created with password `pw`, a read-only join is accepted if and
/// only if it gives `pw`, and it changes no project.
pub proof fn law_private_project_needs_password(
    m0: ManagerView,
    m1: ManagerView,
    m2: ManagerView,
    owner: SessionView,
    owner2: SessionView,
    other: SessionView,
    other2: SessionView,
    project_id: u128,
    name: String,
    pw: String,
    given: Option<String>,
    r1: ServerMessage,
    r2: ServerMessage,
)
    requires
        handled(
            m0,
            m1,
            owner,
            owner2,
            ClientMessage::CreateProject { project_id, name, is_public: false, password: Some(pw) },
            r1,
        ),
        handled(
            m1,
            m2,
            other,
            other2,
            ClientMessage::JoinProject { project_id, access: AccessLevel::ReadOnly, password: given },
            r2,
        ),
    ensures
        (r2 == ServerMessage::JoinedProject { project_id }) <==> (given is Some && given->0@ == pw@),
        (r2 == ServerMessage::JoinedProject { project_id }) ==> other2.access == Some(
            AccessLevel::ReadOnly,
        ),
        m2 == m1,
{
}

/// What a write gives back on a read: text inserted into a new file is the
/// whole file, the update carries it, and synchronising the file from
/// timestamp 0 gives back that single insertion.
pub proof fn law_insert_then_sync(
    m0: ManagerView,
    m1: ManagerView,
    m2: ManagerView,
    s: SessionView,
    s1: SessionView,
    s2: SessionView,
    project_id: u128,
    file: String,
    text: String,
    file2: String,
    r1: ServerMessage,
    r2: ServerMessage,
)
    requires
        m0.projects.contains_key(project_id),
        s.access != Some(AccessLevel::ReadOnly),
        !m0.projects[project_id].documents.contains_key(file@),
        handled(m0, m1, s, s1, ClientMessage::Insert { project_id, file, pos: 0, text }, r1),
        file2@ == file@,
        handled(
            m1,
            m2,
            s1,
            s2,
            ClientMessage::Sync { project_id, file: file2, last_timestamp: 0 },
            r2,
        ),
    ensures
        is_update(r1, project_id, file@, text@),
        m1.projects[project_id].documents[file@].text == text@,
        r2 matches ServerMessage::SyncActions { actions, .. } && actions_view(actions@) == seq![
            ActionView::Insertion { pos: 0, text: text@, timestamp: 1 },
        ],
{
    let d = after_insert(fresh_document(), 0, text@);
    assert(splice(utf8(Seq::<char>::empty()), 0, 0, utf8(text@)) =~= utf8(text@));
    assert(d.text == text@);
    let h = d.history;
    assert(h =~= seq![ActionView::Insertion { pos: 0, text: text@, timestamp: 1 }]);
    assert(numbered(h));
    law_operations_since(h, 0);
    assert(h.skip(0) =~= h);
    assert(m1.projects[project_id].documents[file@] == d);
}

/// A message changes no project but the one it is about (and, for a fork,
/// the new project it creates).
pub proof fn law_other_projects_untouched(
    m: ManagerView,
    m2: ManagerView,
    s: SessionView,
    s2: SessionView,
    msg: ClientMessage,
    r: ServerMessage,
    other: u128,
)
    requires
        handled(m, m2, s, s2, msg, r),
        other != message_project(msg),
        r is ProjectForked ==> other != r->new_project_id,
    ensures
        m2.projects.contains_key(other) == m.projects.contains_key(other),
        m.projects.contains_key(other) ==> m2.projects[other] == m.projects[other],
{
    match msg {
        ClientMessage::CreateProject { project_id, .. } => {
            assert(m2.projects.remove(project_id).contains_key(other) == m2.projects.contains_key(
                other,
            ));
            assert(m.projects.remove(project_id).contains_key(other) == m.projects.contains_key(
                other,
            ));
            if m.projects.contains_key(other) {
                assert(m2.projects.remove(project_id)[other] == m2.projects[other]);
                assert(m.projects.remove(project_id)[other] == m.projects[other]);
            }
        },
        _ => {},
    }
}
/// The identifiers handed out by a replica-identifier counter are pairwise
/// distinct and increase over calls: `ids[i]` is taken when the counter is at
/// `counters[i]`, and between two takes the counter only moves forward.
pub proof fn law_taken_ids_increase(ids: Seq<u64>, counters: Seq<u64>)
    requires
        ids.len() == counters.len(),
        forall|i: int| 0 <= i < ids.len() ==> #[trigger] ids[i] == counters[i],
        forall|i: int| 0 <= i < ids.len() - 1 ==> #[trigger] counters[i] + 1 <= counters[i + 1],
    ensures
        forall|i: int, j: int| 0 <= i < j < ids.len() ==> #[trigger] ids[i] < #[trigger] ids[j],
    decreases ids.len(),
{
    if ids.len() > 1 {
        let n = ids.len() - 1;
        law_taken_ids_increase(ids.drop_last(), counters.drop_last());
        assert forall|i: int, j: int| 0 <= i < j < ids.len() implies #[trigger] ids[i]
            < #[trigger] ids[j] by {
            if j == n {
                assert(ids.drop_last()[i] == ids[i]);
                if i < n - 1 {
                    assert(ids.drop_last()[i] < ids.drop_last()[n - 1]);
                }
                assert(counters[n - 1] + 1 <= counters[n]);
            } else {
                assert(ids.drop_last()[i] == ids[i]);
                assert(ids.drop_last()[j] == ids[j]);
            }
        }
    }
}

/// The replica identifiers of two forks made one after the other (with any
/// messages in between) never meet: every identifier of the later fork is
/// larger than every identifier of the earlier one.
pub proof fn law_forked_replica_ids_increase(
    m0: ManagerView,
    m1: ManagerView,
    m2: ManagerView,
    m3: ManagerView,
    s0: SessionView,
    s1: SessionView,
    s2: SessionView,
    s3: SessionView,
    p1: u128,
    p2: u128,
    r1: ServerMessage,
    r2: ServerMessage,
    k1: Seq<char>,
    k2: Seq<char>,
)
    requires
        handled(m0, m1, s0, s1, ClientMessage::ForkProject { project_id: p1 }, r1),
        r1 is ProjectForked,
        m1.next_replica_id <= m2.next_replica_id,
        handled(m2, m3, s2, s3, ClientMessage::ForkProject { project_id: p2 }, r2),
        r2 is ProjectForked,
        m1.projects[r1->new_project_id].documents.contains_key(k1),
        m3.projects[r2->new_project_id].documents.contains_key(k2),
    ensures
        m1.projects[r1->new_project_id].documents[k1].replica_id < m3.projects[r2->new_project_id].documents[k2].replica_id,
{
}

/// The position of the last pair named `k`, if any.
pub open spec fn last_with_key<K, V>(adds: Seq<(K, V)>, k: K) -> int
    decreases adds.len(),
{
    if adds.len() == 0 {
        -1
    } else if adds.last().0 == k {
        adds.len() - 1
    } else {
        last_with_key(adds.drop_last(), k)
    }
}

/// After a sequence of insertions into a map, a key maps to the value of its
/// last insertion, and a key never inserted to what it mapped to before.
pub proof fn lemma_lookup_after_inserts<K, V>(maps: Seq<Map<K, V>>, adds: Seq<(K, V)>, k: K)
    requires
        maps.len() == adds.len() + 1,
        forall|i: int|
            0 <= i < adds.len() ==> #[trigger] maps[i + 1] == maps[i].insert(adds[i].0, adds[i].1),
    ensures
        -1 <= last_with_key(adds, k) < adds.len(),
        last_with_key(adds, k) >= 0 ==> adds[last_with_key(adds, k)].0 == k && maps.last().contains_key(k)
            && maps.last()[k] == adds[last_with_key(adds, k)].1,
        last_with_key(adds, k) < 0 ==> (forall|i: int| 0 <= i < adds.len() ==> adds[i].0 != k)
            && maps.last().contains_key(k) == maps[0].contains_key(k) && maps.last()[k]
            == maps[0][k],
    decreases adds.len(),
{
    if adds.len() > 0 {
        let n = adds.len() - 1;
        assert(maps[n + 1] == maps[n].insert(adds[n].0, adds[n].1));
        let ms = maps.drop_last();
        let ad = adds.drop_last();
        assert forall|i: int| 0 <= i < ad.len() implies #[trigger] ms[i + 1] == ms[i].insert(
            ad[i].0,
            ad[i].1,
        ) by {
            assert(ms[i + 1] == maps[i + 1]);
            assert(ms[i] == maps[i]);
        }
        lemma_lookup_after_inserts(ms, ad, k);
        if adds.last().0 != k {
            assert forall|i: int| 0 <= i < adds.len() && last_with_key(adds, k) < 0 implies adds[i].0
                != k by {
                if i < n {
                    assert(ad[i] == adds[i]);
                }
            }
            if last_with_key(adds, k) >= 0 {
                assert(ad[last_with_key(adds, k)] == adds[last_with_key(adds, k)]);
            }
        }
    }
}

/// Reading a file of a project gives the document of the last `add_file`
/// for its path, and nothing for a path never added: `views` are the
/// project after each addition, starting from a new project.
pub proof fn law_get_file_after_additions(
    views: Seq<ProjectView>,
    adds: Seq<(Seq<char>, DocumentView)>,
    path: Seq<char>,
)
    requires
        views.len() == adds.len() + 1,
        views[0].documents == Map::<Seq<char>, DocumentView>::empty(),
        forall|i: int|
            0 <= i < adds.len() ==> (#[trigger] views[i + 1]).documents == views[i].documents.insert(
                adds[i].0,
                adds[i].1,
            ),
    ensures
        last_with_key(adds, path) >= 0 ==> views.last().documents.contains_key(path)
            && views.last().documents[path] == adds[last_with_key(adds, path)].1,
        last_with_key(adds, path) < 0 ==> !views.last().documents.contains_key(path),
{
    let maps = Seq::new(views.len(), |i: int| views[i].documents);
    assert forall|i: int| 0 <= i < adds.len() implies #[trigger] maps[i + 1] == maps[i].insert(
        adds[i].0,
        adds[i].1,
    ) by {
        assert(views[i + 1].documents == views[i].documents.insert(adds[i].0, adds[i].1));
    }
    lemma_lookup_after_inserts(maps, adds, path);
    assert(maps.last() == views.last().documents);
}

/// Looking up a project gives the last project added under its identifier,
/// and nothing for an identifier never added: `views` are the manager after
/// each addition, starting from a new manager.
pub proof fn law_get_project_after_additions(
    views: Seq<ManagerView>,
    adds: Seq<ProjectView>,
    id: u128,
)
    requires
        views.len() == adds.len() + 1,
        views[0].projects == Map::<u128, ProjectView>::empty(),
        forall|i: int|
            0 <= i < adds.len() ==> (#[trigger] views[i + 1]).projects == views[i].projects.insert(
                adds[i].id,
                adds[i],
            ),
    ensures
        ({
            let keyed = Seq::new(adds.len(), |i: int| (adds[i].id, adds[i]));
            &&& last_with_key(keyed, id) >= 0 ==> views.last().projects.contains_key(id)
                && views.last().projects[id] == adds[last_with_key(keyed, id)]
            &&& last_with_key(keyed, id) < 0 ==> !views.last().projects.contains_key(id)
        }),
{
    let keyed = Seq::new(adds.len(), |i: int| (adds[i].id, adds[i]));
    let maps = Seq::new(views.len(), |i: int| views[i].projects);
    assert forall|i: int| 0 <= i < keyed.len() implies #[trigger] maps[i + 1] == maps[i].insert(
        keyed[i].0,
        keyed[i].1,
    ) by {
        assert(views[i + 1].projects == views[i].projects.insert(adds[i].id, adds[i]));
    }
    lemma_lookup_after_inserts(maps, keyed, id);
    assert(maps.last() == views.last().projects);
}

/// Synchronising a file from timestamp `t` answers exactly the recorded
/// actions newer than `t`, oldest first: for a history numbered `1..n`, the
/// actions after the first `t` ones, none once `t` reaches `n`, and the whole
/// history from timestamp 0. Nothing changes.
pub proof fn law_sync_answers_newer_actions(
    m: ManagerView,
    m2: ManagerView,
    s: SessionView,
    s2: SessionView,
    project_id: u128,
    file: String,
    last_timestamp: u64,
    r: ServerMessage,
)
    requires
        m.projects.contains_key(project_id),
        m.projects[project_id].documents.contains_key(file@),
        numbered(m.projects[project_id].documents[file@].history),
        handled(m, m2, s, s2, ClientMessage::Sync { project_id, file, last_timestamp }, r),
    ensures
        m2 == m,
        s2 == s,
        ({
            let h = m.projects[project_id].documents[file@].history;
            &&& r matches ServerMessage::SyncActions { project_id: id, file: f, actions } && id
                == project_id && f@ == file@ && actions_view(actions@) == if last_timestamp
                >= h.len() {
                Seq::<ActionView>::empty()
            } else {
                h.skip(last_timestamp as int)
            }
            &&& last_timestamp == 0 ==> (r matches ServerMessage::SyncActions { actions, .. }
                && actions_view(actions@) == h)
        }),
{
    let h = m.projects[project_id].documents[file@].history;
    law_operations_since(h, last_timestamp as nat);
    assert(h.skip(0) =~= h);
}

/// Deleting the bytes `range_start..range_end` of a file, both ends on
/// character boundaries, removes exactly those bytes: the file's UTF-8 bytes
/// become the bytes before `range_start` followed by those from `range_end`
/// on, so the file shrinks by `range_end - range_start` bytes, and the update
/// answered carries the new text.
pub proof fn law_delete_removes_exactly_the_range(
    m: ManagerView,
    m2: ManagerView,
    s: SessionView,
    s2: SessionView,
    project_id: u128,
    file: String,
    range_start: usize,
    range_end: usize,
    r: ServerMessage,
)
    requires
        s.access != Some(AccessLevel::ReadOnly),
        m.projects.contains_key(project_id),
        m.projects[project_id].documents.contains_key(file@),
        range_start <= range_end,
        boundary(m.projects[project_id].documents[file@].text, range_start as int),
        boundary(m.projects[project_id].documents[file@].text, range_end as int),
        handled(m, m2, s, s2, ClientMessage::Delete { project_id, file, range_start, range_end }, r),
    ensures
        m2.projects.contains_key(project_id),
        m2.projects[project_id].documents.contains_key(file@),
        ({
            let before = utf8(m.projects[project_id].documents[file@].text);
            let after = m2.projects[project_id].documents[file@].text;
            &&& utf8(after) == before.take(range_start as int) + before.skip(range_end as int)
            &&& utf8(after).len() + (range_end - range_start) == before.len()
            &&& is_update(r, project_id, file@, after)
        }),
{
    let b = utf8(m.projects[project_id].documents[file@].text);
    let rs = range_start as int;
    let re = range_end as int;
    assert(valid_utf8(b));
    assert(re <= b.len());
    valid_utf8_split(b, rs);
    valid_utf8_split(b, re);
    let pre = b.subrange(0, rs);
    let post = b.subrange(re, b.len() as int);
    valid_utf8_concat(pre, post);
    let nb = splice(b, rs, re, Seq::empty());
    assert(nb =~= pre + post);
    decode_utf8_encode_utf8(nb);
    assert(pre =~= b.take(rs));
    assert(post =~= b.skip(re));
}

/// Forking a project copies its file tree: every path names in the fork what
/// it names in the original. The fork has the original's files, each with the
/// same text and history, and belongs to the user who forked it.
pub proof fn law_fork_copies_the_project(
    m: ManagerView,
    m2: ManagerView,
    s: SessionView,
    s2: SessionView,
    project_id: u128,
    r: ServerMessage,
)
    requires
        s.access is Some,
        m.projects.contains_key(project_id),
        handled(m, m2, s, s2, ClientMessage::ForkProject { project_id }, r),
    ensures
        r is ProjectForked,
        m2.projects.contains_key(r->new_project_id),
        ({
            let q = m2.projects[r->new_project_id];
            let p = m.projects[project_id];
            &&& forall|path: Seq<Seq<char>>| #[trigger]
                node_lookup(q.files, path) == node_lookup(p.files, path)
            &&& q.documents.dom() == p.documents.dom()
            &&& forall|k: Seq<char>|
                #[trigger] p.documents.contains_key(k) ==> q.documents[k].text
                    == p.documents[k].text && q.documents[k].history == p.documents[k].history
            &&& q.owner == s.user_id
        }),
{
    let q = m2.projects[r->new_project_id];
    let p = m.projects[project_id];
    assert forall|k: Seq<char>| #[trigger] p.documents.contains_key(k) implies q.documents[k].text
        == p.documents[k].text && q.documents[k].history == p.documents[k].history by {
        assert(q.documents.dom().contains(k));
    }
}

/// Adding a file at `target` leaves every path that parts ways with `target`
/// (their components differ at some index `k` that both have) naming what it
/// named before: the existing directories on the way are kept, with all their
/// other entries.
pub proof fn law_adding_a_file_keeps_other_paths(
    old_tree: FileNode,
    new_tree: FileNode,
    target: Seq<Seq<char>>,
    path: Seq<Seq<char>>,
    k: int,
)
    requires
        forall|p: Seq<Seq<char>>|
            #[trigger] node_lookup(new_tree, p) == after_add(node_lookup(old_tree, p), target, p),
        0 <= k < path.len(),
        k < target.len(),
        path[k] != target[k],
    ensures
        node_lookup(new_tree, path) == node_lookup(old_tree, path),
{
    assert(node_lookup(new_tree, path) == after_add(node_lookup(old_tree, path), target, path));
    assert(path != target);
    if path.len() < target.len() && path == target.take(path.len() as int) {
        assert(path[k] == target.take(path.len() as int)[k]);
    }
    if target.len() < path.len() && target == path.take(target.len() as int) {
        assert(target[k] == path.take(target.len() as int)[k]);
    }
}

/// Inserting into a new file keeps the rest of the project's tree: every
/// path that parts ways with the new file's path (at an index `k` that both
/// have) names what it named before, so the files already in a directory on
/// the way stay there.
pub proof fn law_new_file_keeps_other_paths(
    m: ManagerView,
    m2: ManagerView,
    s: SessionView,
    s2: SessionView,
    project_id: u128,
    file: String,
    pos: usize,
    text: String,
    r: ServerMessage,
    path: Seq<Seq<char>>,
    k: int,
)
    requires
        s.access != Some(AccessLevel::ReadOnly),
        m.projects.contains_key(project_id),
        !m.projects[project_id].documents.contains_key(file@),
        handled(m, m2, s, s2, ClientMessage::Insert { project_id, file, pos, text }, r),
        0 <= k < path.len(),
        k < path_parts(file@).len(),
        path[k] != path_parts(file@)[k],
    ensures
        m2.projects.contains_key(project_id),
        node_lookup(m2.projects[project_id].files, path) == node_lookup(
            m.projects[project_id].files,
            path,
        ),
{
    law_adding_a_file_keeps_other_paths(
        m.projects[project_id].files,
        m2.projects[project_id].files,
        path_parts(file@),
        path,
        k,
    );
}

/// The words joined by single spaces: one word is itself, and a word added
/// to a nonempty list comes after the joined list and one space.
pub proof fn law_join_spaces_push(words: Seq<Seq<char>>, x: Seq<char>)
    ensures
        words.len() == 0 ==> join_spaces(words.push(x)) == x,
        words.len() > 0 ==> join_spaces(words.push(x)) == join_spaces(words) + " "@ + x,
{
    let w = words.push(x);
    assert(w.drop_last() =~= words);
    assert(w.last() == x);
}

/// Inserting text at a character boundary of a file places its bytes there:
/// the file's UTF-8 bytes become those before `pos`, the text's, and those
/// from `pos` on, so the file grows by the text's length in bytes, and the
/// update answered carries the new text.
pub proof fn law_insert_places_the_text(
    m: ManagerView,
    m2: ManagerView,
    s: SessionView,
    s2: SessionView,
    project_id: u128,
    file: String,
    pos: usize,
    text: String,
    r: ServerMessage,
)
    requires
        s.access != Some(AccessLevel::ReadOnly),
        m.projects.contains_key(project_id),
        m.projects[project_id].documents.contains_key(file@),
        boundary(m.projects[project_id].documents[file@].text, pos as int),
        handled(m, m2, s, s2, ClientMessage::Insert { project_id, file, pos, text }, r),
    ensures
        m2.projects.contains_key(project_id),
        m2.projects[project_id].documents.contains_key(file@),
        ({
            let before = utf8(m.projects[project_id].documents[file@].text);
            let after = m2.projects[project_id].documents[file@].text;
            &&& utf8(after) == before.take(pos as int) + utf8(text@) + before.skip(pos as int)
            &&& utf8(after).len() == before.len() + utf8(text@).len()
            &&& is_update(r, project_id, file@, after)
        }),
{
    let b = utf8(m.projects[project_id].documents[file@].text);
    let p = pos as int;
    let tb = utf8(text@);
    assert(valid_utf8(b));
    assert(valid_utf8(tb));
    assert(p <= b.len());
    valid_utf8_split(b, p);
    let pre = b.subrange(0, p);
    let post = b.subrange(p, b.len() as int);
    valid_utf8_concat(pre, tb);
    valid_utf8_concat(pre + tb, post);
    let nb = splice(b, p, p, tb);
    assert(nb =~= pre + tb + post);
    decode_utf8_encode_utf8(nb);
    assert(pre =~= b.take(p));
    assert(post =~= b.skip(p));
}

/// Edits keep a document's history numbered: when the actions so far carry
/// the timestamps `1..n` and the document's timestamp is `n`, an insertion or
/// a deletion is recorded as action `n + 1` and the timestamp moves to it.
pub proof fn law_edits_keep_history_numbered(
    d: DocumentView,
    pos: nat,
    t: Seq<char>,
    start: nat,
    end: nat,
)
    requires
        numbered(d.history),
        d.timestamp == d.history.len(),
    ensures
        numbered(after_insert(d, pos, t).history),
        after_insert(d, pos, t).timestamp == after_insert(d, pos, t).history.len(),
        numbered(after_delete(d, start, end).history),
        after_delete(d, start, end).timestamp == after_delete(d, start, end).history.len(),
{
    let hi = after_insert(d, pos, t).history;
    assert forall|i: int| 0 <= i < hi.len() implies (#[trigger] hi[i]).timestamp() == i + 1 by {
        if i < d.history.len() {
            assert(hi[i] == d.history[i]);
        }
    }
    let hd = after_delete(d, start, end).history;
    assert forall|i: int| 0 <= i < hd.len() implies (#[trigger] hd[i]).timestamp() == i + 1 by {
        if i < d.history.len() {
            assert(hd[i] == d.history[i]);
        }
    }
}

/// Asking for a project's files answers its tree: every path names in the
/// answer what it names in the project. Nothing changes.
pub proof fn law_project_files_are_the_tree(
    m: ManagerView,
    m2: ManagerView,
    s: SessionView,
    s2: SessionView,
    project_id: u128,
    r: ServerMessage,
)
    requires
        m.projects.contains_key(project_id),
        handled(m, m2, s, s2, ClientMessage::GetProjectFiles { project_id }, r),
    ensures
        m2 == m,
        s2 == s,
        r matches ServerMessage::ProjectFiles { project_id: id, files } && id == project_id
            && forall|path: Seq<Seq<char>>| #[trigger]
            node_lookup(files, path) == node_lookup(m.projects[project_id].files, path),
{
}

/// The owner's permission is what the user gets: after the owner permits
/// `username` an access level, the project records that level for that user,
/// and every other user keeps the level recorded before (or none).
pub proof fn law_permit_access_records_the_level(
    m: ManagerView,
    m2: ManagerView,
    s: SessionView,
    s2: SessionView,
    project_id: u128,
    username: String,
    access: AccessLevel,
    r: ServerMessage,
    other: Seq<char>,
)
    requires
        m.projects.contains_key(project_id),
        m.projects[project_id].owner == s.user_id,
        other != username@,
        handled(m, m2, s, s2, ClientMessage::PermitAccess { project_id, username, access }, r),
    ensures
        m2.projects.contains_key(project_id),
        m2.projects[project_id].allowed_users.contains_key(username@),
        m2.projects[project_id].allowed_users[username@] == access,
        m2.projects[project_id].allowed_users.contains_key(other)
            == m.projects[project_id].allowed_users.contains_key(other),
        m2.projects[project_id].allowed_users[other] == m.projects[project_id].allowed_users[other],
        (r is Update),
{
}

/// An editor request is what the owner can grant: once a user has asked to
/// edit a project, the owner granting that user editor rights is answered
/// with the confirmation, and one pending request is gone.
pub proof fn law_requested_editor_can_be_granted(
    m0: ManagerView,
    m1: ManagerView,
    m2: ManagerView,
    user: SessionView,
    user2: SessionView,
    owner: SessionView,
    owner2: SessionView,
    project_id: u128,
    password: Option<String>,
    user_id: u128,
    r1: ServerMessage,
    r2: ServerMessage,
)
    requires
        m0.projects.contains_key(project_id),
        m0.projects[project_id].owner == owner.user_id,
        user.user_id == uuid_hyphenated(user_id),
        handled(
            m0,
            m1,
            user,
            user2,
            ClientMessage::JoinProject { project_id, access: AccessLevel::Editor, password },
            r1,
        ),
        handled(m1, m2, owner, owner2, ClientMessage::GrantEditor { project_id, user_id }, r2),
    ensures
        (r1 == ServerMessage::EditorRequestReceived { project_id }),
        m1.projects[project_id].pending_editor_requests.contains(user.user_id),
        is_update(r2, project_id, Seq::empty(), editor_granted_text(user_id)),
        m2.projects[project_id].pending_editor_requests.len() + 1
            == m1.projects[project_id].pending_editor_requests.len(),
{
    let pending = m0.projects[project_id].pending_editor_requests;
    if !pending.contains(user.user_id) {
        assert(pending.push(user.user_id)[pending.len() as int] == user.user_id);
    }
}
} // verus!
