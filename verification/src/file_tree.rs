//! A project's tree of files and directories.

use vstd::prelude::*;
use crate::path::strings_view;

verus! {

/// What a path in a file tree names.
pub enum EntryKind {
    File,
    Directory,
}

/// A node of a file tree: a file, or a directory of named entries.
pub enum FileNode {
    File,
    Directory(Vec<(String, FileNode)>),
}

/// Whether some entry is named `name`.
pub open spec fn has_name(entries: Seq<(String, FileNode)>, name: Seq<char>) -> bool {
    exists|i: int| 0 <= i < entries.len() && (#[trigger] entries[i]).0@ == name
}

/// An index of an entry named `name` (the only one in a well-formed directory).
pub open spec fn index_of(entries: Seq<(String, FileNode)>, name: Seq<char>) -> int {
    choose|i: int| 0 <= i < entries.len() && (#[trigger] entries[i]).0@ == name
}

/// What `path` names below a directory with these entries.
pub open spec fn dir_lookup(entries: Seq<(String, FileNode)>, path: Seq<Seq<char>>) -> Option<
    EntryKind,
>
    decreases path.len(), 0int,
{
    if path.len() == 0 {
        Some(EntryKind::Directory)
    } else if has_name(entries, path[0]) {
        node_lookup(entries[index_of(entries, path[0])].1, path.drop_first())
    } else {
        None
    }
}

/// What `path` names below `node` (the empty path names `node` itself).
pub open spec fn node_lookup(node: FileNode, path: Seq<Seq<char>>) -> Option<EntryKind>
    decreases path.len(), 1int,
{
    match node {
        FileNode::File => if path.len() == 0 {
            Some(EntryKind::File)
        } else {
            None
        },
        FileNode::Directory(v) => dir_lookup(v@, path),
    }
}

/// No two entries of a directory share a name.
pub open spec fn unique_names(entries: Seq<(String, FileNode)>) -> bool {
    forall|i: int, j: int|
        0 <= i < entries.len() && 0 <= j < entries.len() && i != j ==> (#[trigger] entries[i]).0@
            != (#[trigger] entries[j]).0@
}

/// Every directory of the tree has uniquely named entries.
pub open spec fn node_wf(node: FileNode) -> bool
    decreases node,
{
    match node {
        FileNode::File => true,
        FileNode::Directory(v) => unique_names(v@) && forall|i: int|
            0 <= i < v@.len() ==> node_wf(#[trigger] v@[i].1),
    }
}

/// A directory with these entries is well formed.
pub open spec fn dir_wf(entries: Seq<(String, FileNode)>) -> bool {
    &&& unique_names(entries)
    &&& forall|i: int| 0 <= i < entries.len() ==> node_wf(#[trigger] entries[i].1)
}

/// What `path` names once a file was added at `target`: the proper prefixes
/// of `target` are directories, `target` is a file, whatever was below
/// `target` is gone, and every other path names what it named `before`.
pub open spec fn after_add(
    before: Option<EntryKind>,
    target: Seq<Seq<char>>,
    path: Seq<Seq<char>>,
) -> Option<EntryKind> {
    if path.len() < target.len() && path == target.take(path.len() as int) {
        Some(EntryKind::Directory)
    } else if path == target {
        Some(EntryKind::File)
    } else if target.len() < path.len() && target == path.take(target.len() as int) {
        None
    } else {
        before
    }
}

/// A path can receive a file at `target` when no proper prefix of it is a
/// file.
pub open spec fn can_add(entries: Seq<(String, FileNode)>, target: Seq<Seq<char>>) -> bool {
    forall|k: int| 0 < k < target.len() ==> dir_lookup(entries, #[trigger] target.take(k)) != Some(
        EntryKind::File,
    )
}

/// In a directory with unique names, a path goes through the entry that
/// carries its first component.
pub proof fn lemma_lookup_at(entries: Seq<(String, FileNode)>, j: int, path: Seq<Seq<char>>)
    requires
        unique_names(entries),
        0 <= j < entries.len(),
        path.len() > 0,
        entries[j].0@ == path[0],
    ensures
        dir_lookup(entries, path) == node_lookup(entries[j].1, path.drop_first()),
{
    assert(has_name(entries, path[0]));
    let k = index_of(entries, path[0]);
    assert(entries[k].0@ == path[0]);
}

/// Prefix relations are kept when the same first component is dropped.
proof fn lemma_prefix_tail(p: Seq<Seq<char>>, t: Seq<Seq<char>>)
    requires
        p.len() > 0,
        t.len() > 0,
        p[0] == t[0],
    ensures
        (p.len() < t.len() && p == t.take(p.len() as int)) == (p.drop_first().len()
            < t.drop_first().len() && p.drop_first() == t.drop_first().take(
            p.drop_first().len() as int,
        )),
        (p == t) == (p.drop_first() == t.drop_first()),
        (t.len() < p.len() && t == p.take(t.len() as int)) == (t.drop_first().len()
            < p.drop_first().len() && t.drop_first() == p.drop_first().take(
            t.drop_first().len() as int,
        )),
{
    let q = p.drop_first();
    let u = t.drop_first();
    if p.len() < t.len() && q == u.take(q.len() as int) {
        assert forall|k: int| 0 <= k < p.len() implies p[k] == t.take(p.len() as int)[k] by {
            if k > 0 {
                assert(p[k] == q[k - 1]);
                assert(u.take(q.len() as int)[k - 1] == u[k - 1]);
            }
        }
        assert(p =~= t.take(p.len() as int));
    }
    if p.len() < t.len() && p == t.take(p.len() as int) {
        assert(q =~= u.take(q.len() as int));
    }
    if q == u {
        assert forall|k: int| 0 <= k < p.len() implies p[k] == t[k] by {
            if k > 0 {
                assert(p[k] == q[k - 1]);
                assert(t[k] == u[k - 1]);
            }
        }
        assert(p =~= t);
    }
    if t.len() < p.len() && u == q.take(u.len() as int) {
        assert forall|k: int| 0 <= k < t.len() implies t[k] == p.take(t.len() as int)[k] by {
            if k > 0 {
                assert(t[k] == u[k - 1]);
                assert(q.take(u.len() as int)[k - 1] == q[k - 1]);
            }
        }
        assert(t =~= p.take(t.len() as int));
    }
    if t.len() < p.len() && t == p.take(t.len() as int) {
        assert(u =~= q.take(u.len() as int));
    }
}

/// Directories whose entries carry the same names in the same order, over
/// children that name the same paths, name the same paths.
pub proof fn lemma_same_entries(a: Seq<(String, FileNode)>, b: Seq<(String, FileNode)>)
    requires
        unique_names(a),
        a.len() == b.len(),
        forall|i: int| 0 <= i < a.len() ==> (#[trigger] b[i]).0@ == a[i].0@,
        forall|i: int, p: Seq<Seq<char>>|
            0 <= i < a.len() ==> #[trigger] node_lookup(b[i].1, p) == node_lookup(a[i].1, p),
    ensures
        unique_names(b),
        forall|p: Seq<Seq<char>>| #[trigger] dir_lookup(b, p) == dir_lookup(a, p),
{
    assert forall|i: int, j: int|
        0 <= i < b.len() && 0 <= j < b.len() && i != j implies (#[trigger] b[i]).0@
        != (#[trigger] b[j]).0@ by {
        assert(a[i].0@ != a[j].0@);
    }
    assert forall|p: Seq<Seq<char>>| #[trigger] dir_lookup(b, p) == dir_lookup(a, p) by {
        if p.len() > 0 {
            if has_name(a, p[0]) {
                let k = index_of(a, p[0]);
                lemma_lookup_at(a, k, p);
                assert(b[k].0@ == p[0]);
                lemma_lookup_at(b, k, p);
            } else {
                if has_name(b, p[0]) {
                    let k = index_of(b, p[0]);
                    assert(a[k].0@ == p[0]);
                }
            }
        }
    }
}

/// A copy of a tree that names the same paths.
pub fn clone_node(n: &FileNode) -> (r: FileNode)
    requires
        node_wf(*n),
    ensures
        node_wf(r),
        r is Directory == n is Directory,
        forall|p: Seq<Seq<char>>| #[trigger] node_lookup(r, p) == node_lookup(*n, p),
    decreases n,
{
    match n {
        FileNode::File => {
            let r = FileNode::File;
            assert(r == *n);
            r
        },
        FileNode::Directory(v) => {
            let mut out: Vec<(String, FileNode)> = Vec::new();
            let mut k: usize = 0;
            while k < v.len()
                invariant
                    k <= v@.len(),
                    out@.len() == k,
                    *n == FileNode::Directory(*v),
                    dir_wf(v@),
                    forall|i: int| 0 <= i < k ==> (#[trigger] out@[i]).0@ == v@[i].0@,
                    forall|i: int| 0 <= i < k ==> node_wf(#[trigger] out@[i].1),
                    forall|i: int, p: Seq<Seq<char>>|
                        0 <= i < k ==> #[trigger] node_lookup(out@[i].1, p) == node_lookup(
                            v@[i].1,
                            p,
                        ),
                decreases v@.len() - k,
            {
                assert(node_wf(v@[k as int].1));
                proof {
                    assert(n->Directory_0 == *v);
                    assert(decreases_to!(*n => n->Directory_0));
                    assert(decreases_to!(*v => v@));
                    assert(decreases_to!(v@ => v@[k as int]));
                    assert(decreases_to!(v@[k as int] => v@[k as int].1));
                    assert(decreases_to!(*n => v@[k as int].1));
                }
                let child = clone_node(&v[k].1);
                let name = v[k].0.clone();
                out.push((name, child));
                k = k + 1;
            }
            proof {
                lemma_same_entries(v@, out@);
            }
            let r = FileNode::Directory(out);
            assert(forall|p: Seq<Seq<char>>| #[trigger] node_lookup(r, p) == dir_lookup(out@, p));
            assert(forall|p: Seq<Seq<char>>| #[trigger] node_lookup(*n, p) == dir_lookup(v@, p));
            r
        },
    }
}

/// The index of the entry named `name`, if there is one.
pub fn find_entry(entries: &Vec<(String, FileNode)>, name: &String) -> (r: Option<usize>)
    ensures
        match r {
            Some(j) => j < entries@.len() && entries@[j as int].0@ == name@,
            None => !has_name(entries@, name@),
        },
{
    let mut k: usize = 0;
    while k < entries.len()
        invariant
            k <= entries@.len(),
            forall|i: int| 0 <= i < k ==> (#[trigger] entries@[i]).0@ != name@,
        decreases entries@.len() - k,
    {
        if entries[k].0 == *name {
            return Some(k);
        }
        k = k + 1;
    }
    None
}

/// Adds a file at `parts[i..]` below a directory with these entries: every
/// missing directory on the way is created, and the last component becomes a
/// file (replacing whatever had that name).
pub fn add_in_dir(entries: Vec<(String, FileNode)>, parts: &Vec<String>, i: usize) -> (r: Vec<
    (String, FileNode),
>)
    requires
        i < parts@.len(),
        dir_wf(entries@),
        can_add(entries@, strings_view(parts@).skip(i as int)),
    ensures
        dir_wf(r@),
        forall|p: Seq<Seq<char>>|
            #[trigger] dir_lookup(r@, p) == after_add(
                dir_lookup(entries@, p),
                strings_view(parts@).skip(i as int),
                p,
            ),
    decreases parts@.len() - i,
{
    let ghost target = strings_view(parts@).skip(i as int);
    let ghost old_entries = entries@;
    let mut entries = entries;
    let name = parts[i].clone();
    assert(target[0] == name@);
    let found = find_entry(&entries, &name);
    let n = parts.len();
    if i + 1 == n {
        let ghost new_entry = (name, FileNode::File);
        match found {
            Some(j) => {
                entries.remove(j);
                entries.insert(j, (name, FileNode::File));
                assert(entries@ =~= old_entries.update(j as int, new_entry));
            },
            None => {
                entries.push((name, FileNode::File));
            },
        }
        proof {
            let j = if found is Some { found->0 as int } else { old_entries.len() as int };
            assert(entries@[j] == new_entry);
            assert forall|p: Seq<Seq<char>>|
                #[trigger] dir_lookup(entries@, p) == after_add(
                    dir_lookup(old_entries, p),
                    target,
                    p,
                ) by {
                if p.len() == 0 {
                } else if p[0] == name@ {
                    lemma_lookup_at(entries@, j, p);
                    assert(target =~= seq![name@]);
                    if p.len() == 1 {
                        assert(p =~= target);
                    } else {
                        assert(target =~= p.take(1));
                    }
                } else {
                    if has_name(old_entries, p[0]) {
                        let k = index_of(old_entries, p[0]);
                        lemma_lookup_at(old_entries, k, p);
                        assert(entries@[k] == old_entries[k]);
                        lemma_lookup_at(entries@, k, p);
                    } else {
                        assert(!has_name(entries@, p[0]));
                    }
                    if p.len() < target.len() && p == target.take(p.len() as int) {
                        assert(p[0] == target[0]);
                    }
                    if target.len() < p.len() && target == p.take(target.len() as int) {
                        assert(p[0] == target[0]);
                    }
                }
            }
        }
        entries
    } else {
        let ghost sub_target = strings_view(parts@).skip(i as int + 1);
        assert(sub_target =~= target.drop_first());
        assert(target.take(1) =~= seq![name@]);
        let ghost old_sub: Seq<(String, FileNode)>;
        let ghost new_sub: Seq<(String, FileNode)>;
        let ghost j: int;
        match found {
            Some(jj) => {
                let (n, node) = entries.remove(jj);
                proof {
                    lemma_lookup_at(old_entries, jj as int, target.take(1));
                    assert(old_entries[jj as int].1 == node);
                }
                match node {
                    FileNode::Directory(sub) => {
                        proof {
                            old_sub = sub@;
                            j = jj as int;
                            assert forall|k: int| 0 < k < sub_target.len() implies dir_lookup(
                                sub@,
                                #[trigger] sub_target.take(k),
                            ) != Some(EntryKind::File) by {
                                let tk = target.take(k + 1);
                                assert(tk.drop_first() =~= sub_target.take(k));
                                lemma_lookup_at(old_entries, jj as int, tk);
                            }
                        }
                        let sub2 = add_in_dir(sub, parts, i + 1);
                        proof {
                            new_sub = sub2@;
                        }
                        entries.insert(jj, (n, FileNode::Directory(sub2)));
                    },
                    FileNode::File => {
                        proof {
                            assert(false);
                        }
                        entries.insert(jj, (n, FileNode::File));
                        return entries;
                    },
                }
            },
            None => {
                proof {
                    old_sub = Seq::empty();
                    j = old_entries.len() as int;
                }
                let empty: Vec<(String, FileNode)> = Vec::new();
                assert(empty@ =~= Seq::<(String, FileNode)>::empty());
                let sub2 = add_in_dir(empty, parts, i + 1);
                proof {
                    new_sub = sub2@;
                }
                entries.push((name, FileNode::Directory(sub2)));
            },
        }
        proof {
            assert(entries@.len() == if found is Some { old_entries.len() } else {
                old_entries.len() + 1
            });
            assert(entries@[j].0@ == name@);
            assert forall|k: int| 0 <= k < entries@.len() && k != j implies #[trigger] entries@[k]
                == old_entries[k] by {}
            assert(unique_names(entries@));
            assert forall|p: Seq<Seq<char>>|
                #[trigger] dir_lookup(entries@, p) == after_add(
                    dir_lookup(old_entries, p),
                    target,
                    p,
                ) by {
                if p.len() == 0 {
                } else if p[0] == name@ {
                    lemma_lookup_at(entries@, j, p);
                    lemma_prefix_tail(p, target);
                    let q = p.drop_first();
                    assert(dir_lookup(entries@, p) == dir_lookup(new_sub, q));
                    assert(dir_lookup(new_sub, q) == after_add(dir_lookup(old_sub, q), sub_target, q));
                    if found is Some {
                        lemma_lookup_at(old_entries, j, p);
                        assert(dir_lookup(old_entries, p) == dir_lookup(old_sub, q));
                    } else {
                        assert(!has_name(old_entries, p[0]));
                        if q.len() > 0 {
                            assert(dir_lookup(old_sub, q) == None::<EntryKind>);
                        } else {
                            assert(target.take(1) == p);
                        }
                    }
                } else {
                    if has_name(old_entries, p[0]) {
                        let k = index_of(old_entries, p[0]);
                        lemma_lookup_at(old_entries, k, p);
                        assert(entries@[k] == old_entries[k]);
                        lemma_lookup_at(entries@, k, p);
                    } else {
                        assert(!has_name(entries@, p[0]));
                    }
                    if p.len() < target.len() && p == target.take(p.len() as int) {
                        assert(p[0] == target[0]);
                    }
                    if target.len() < p.len() && target == p.take(target.len() as int) {
                        assert(p[0] == target[0]);
                    }
                }
            }
        }
        entries
    }
}


/// Whether some proper prefix of `parts[i..]` names a file below a directory
/// with these entries (so that no file can be added at `parts[i..]`).
pub fn file_on_the_way(entries: &Vec<(String, FileNode)>, parts: &Vec<String>, i: usize) -> (b: bool)
    requires
        i <= parts@.len(),
        dir_wf(entries@),
    ensures
        b == !can_add(entries@, strings_view(parts@).skip(i as int)),
    decreases parts@.len() - i,
{
    let ghost t = strings_view(parts@).skip(i as int);
    let n = parts.len();
    if i >= n || n - i <= 1 {
        return false;
    }
    let found = find_entry(entries, &parts[i]);
    assert(t[0] == parts@[i as int]@);
    match found {
        None => {
            proof {
                assert forall|k: int| 0 < k < t.len() implies dir_lookup(entries@, #[trigger] t.take(k))
                    != Some(EntryKind::File) by {
                    assert(t.take(k)[0] == t[0]);
                }
            }
            false
        },
        Some(j) => {
            proof {
                lemma_lookup_at(entries@, j as int, t.take(1));
                assert(t.take(1).drop_first() =~= Seq::<Seq<char>>::empty());
            }
            match &entries[j].1 {
                FileNode::File => true,
                FileNode::Directory(sub) => {
                    let ghost u = strings_view(parts@).skip(i as int + 1);
                    assert(u =~= t.drop_first());
                    assert(node_wf(entries@[j as int].1));
                    let r = file_on_the_way(sub, parts, i + 1);
                    proof {
                        if can_add(sub@, u) {
                            assert forall|k: int| 0 < k < t.len() implies dir_lookup(
                                entries@,
                                #[trigger] t.take(k),
                            ) != Some(EntryKind::File) by {
                                lemma_lookup_at(entries@, j as int, t.take(k));
                                assert(t.take(k).drop_first() =~= u.take(k - 1));
                                if k > 1 {
                                    assert(dir_lookup(sub@, u.take(k - 1)) != Some(EntryKind::File));
                                }
                            }
                        } else {
                            let k1 = choose|k1: int| 0 < k1 < u.len() && dir_lookup(sub@, #[trigger] u.take(k1))
                                == Some(EntryKind::File);
                            lemma_lookup_at(entries@, j as int, t.take(k1 + 1));
                            assert(t.take(k1 + 1).drop_first() =~= u.take(k1));
                        }
                    }
                    r
                },
            }
        },
    }
}

} // verus!
