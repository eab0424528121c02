//! Projects (a file tree, the documents behind the files, and who may do
//! what) and the manager that holds every project by its identifier.

use vstd::prelude::*;
use std::collections::HashMap;
use crate::assoc::{assoc_insert, assoc_view, find_key, has_key, key_index, keys_unique, lemma_assoc_at, lemma_assoc_push, lemma_assoc_update};
use crate::document::{after_delete, after_insert, Document, DocumentView, ReplicaIds, TextInsertion};
use crate::file_tree::{add_in_dir, after_add, can_add, dir_lookup, node_lookup, node_wf, FileNode};
use crate::path::{path_parts, split_path, strings_view};
use crate::text::boundary;

verus! {

broadcast use vstd::std_specs::hash::group_hash_axioms;

/// What a user may do in a project.
#[derive(Clone, Copy, Debug, PartialEq, Eq, Structural)]
pub enum AccessLevel {
    ReadOnly,
    Editor,
}

/// The documents of a project, by path.
pub open spec fn documents_view(s: Seq<(String, Document)>) -> Map<Seq<char>, DocumentView> {
    assoc_view(s, |d: Document| d@)
}

/// The access levels granted in a project, by user name.
pub open spec fn access_view(s: Seq<(String, AccessLevel)>) -> Map<Seq<char>, AccessLevel> {
    assoc_view(s, |a: AccessLevel| a)
}

/// The mathematical value of a [`Project`].
pub struct ProjectView {
    pub id: u128,
    pub name: Seq<char>,
    pub owner: Seq<char>,
    pub files: FileNode,
    pub documents: Map<Seq<char>, DocumentView>,
    pub allowed_users: Map<Seq<char>, AccessLevel>,
    pub pending_editor_requests: Seq<Seq<char>>,
    pub is_public: bool,
    pub password: Option<Seq<char>>,
}

/// The view of an optional string.
pub open spec fn opt_view(o: Option<String>) -> Option<Seq<char>> {
    match o {
        Some(s) => Some(s@),
        None => None,
    }
}

/// A project: its files, the documents behind them, its owner, the access
/// granted to other users and the pending requests for editor access.
pub struct Project {
    pub id: u128,
    pub name: String,
    pub owner: String,
    pub files: FileNode,
    pub documents: Vec<(String, Document)>,
    pub allowed_users: Vec<(String, AccessLevel)>,
    pub pending_editor_requests: Vec<String>,
    pub is_public: bool,
    pub password: Option<String>,
}

impl View for Project {
    type V = ProjectView;

    open spec fn view(&self) -> ProjectView {
        ProjectView {
            id: self.id,
            name: self.name@,
            owner: self.owner@,
            files: self.files,
            documents: documents_view(self.documents@),
            allowed_users: access_view(self.allowed_users@),
            pending_editor_requests: strings_view(self.pending_editor_requests@),
            is_public: self.is_public,
            password: opt_view(self.password),
        }
    }
}

impl Project {
    /// The project's consistency: its root is a well-formed directory, paths
    /// and user names are listed once, every document is well formed, and a
    /// user asks for editor access at most once at a time.
    pub open spec fn wf(&self) -> bool {
        &&& self.files is Directory
        &&& node_wf(self.files)
        &&& keys_unique(self.documents@)
        &&& forall|i: int|
            0 <= i < self.documents@.len() ==> (#[trigger] self.documents@[i]).1.wf()
        &&& keys_unique(self.allowed_users@)
        &&& strings_view(self.pending_editor_requests@).no_duplicates()
    }

    /// A new project with an empty root directory. A private project must
    /// have a password (this panics otherwise).
    pub fn new(owner: String, id: u128, name: String, is_public: bool, password: Option<String>) -> (p: Self)
        requires
            is_public || password is Some,
        ensures
            p.wf(),
            p@.id == id,
            p@.name == name@,
            p@.owner == owner@,
            p@.files is Directory && p@.files->0@.len() == 0,
            p@.documents == Map::<Seq<char>, DocumentView>::empty(),
            p@.allowed_users == Map::<Seq<char>, AccessLevel>::empty(),
            p@.pending_editor_requests == Seq::<Seq<char>>::empty(),
            p@.is_public == is_public,
            p@.password == opt_view(password),
    {
        let p = Project {
            id,
            name,
            owner,
            files: FileNode::Directory(Vec::new()),
            documents: Vec::new(),
            allowed_users: Vec::new(),
            pending_editor_requests: Vec::new(),
            is_public,
            password,
        };
        assert(documents_view(p.documents@) =~= Map::<Seq<char>, DocumentView>::empty());
        assert(access_view(p.allowed_users@) =~= Map::<Seq<char>, AccessLevel>::empty());
        assert(strings_view(p.pending_editor_requests@) =~= Seq::<Seq<char>>::empty());
        p
    }

    /// Grants `access` to `username`, replacing what was granted before.
    pub fn permit_access(&mut self, username: String, access: AccessLevel)
        requires
            old(self).wf(),
        ensures
            final(self).wf(),
            final(self)@ == (ProjectView {
                allowed_users: old(self)@.allowed_users.insert(username@, access),
                ..old(self)@
            }),
    {
        let ghost k = username@;
        let ghost old_users = self.allowed_users@;
        assoc_insert(&mut self.allowed_users, username, access);
        proof {
            if has_key(old_users, k) {
                lemma_assoc_update(old_users, key_index(old_users, k), self.allowed_users@[key_index(old_users, k)], |a: AccessLevel| a);
            } else {
                lemma_assoc_push(old_users, self.allowed_users@.last(), |a: AccessLevel| a);
            }
        }
    }

    /// The document at `path`, if there is one.
    pub fn get_file(&self, path: &String) -> (r: Option<&Document>)
        requires
            self.wf(),
        ensures
            match r {
                Some(d) => self@.documents.contains_key(path@) && d@ == self@.documents[path@]
                    && d.wf(),
                None => !self@.documents.contains_key(path@),
            },
    {
        match find_key(&self.documents, path) {
            Some(j) => {
                proof {
                    lemma_assoc_at(self.documents@, j as int, |d: Document| d@);
                }
                Some(&self.documents[j].1)
            },
            None => None,
        }
    }

    /// The position of the document at `path` in the project's list, if any.
    pub fn file_index(&self, path: &String) -> (r: Option<usize>)
        requires
            self.wf(),
        ensures
            match r {
                Some(j) => j < self.documents@.len() && self.documents@[j as int].0@ == path@
                    && self@.documents.contains_key(path@) && self@.documents[path@]
                    == self.documents@[j as int].1@,
                None => !self@.documents.contains_key(path@),
            },
    {
        let r = find_key(&self.documents, path);
        proof {
            if r is Some {
                lemma_assoc_at(self.documents@, r->0 as int, |d: Document| d@);
            }
        }
        r
    }

    /// Inserts `text` at byte position `pos` of the document at position `j`.
    pub fn insert_in_file(&mut self, j: usize, pos: usize, text: String) -> (ins: TextInsertion)
        requires
            old(self).wf(),
            j < old(self).documents@.len(),
            boundary(old(self).documents@[j as int].1@.text, pos as int),
            old(self).documents@[j as int].1@.timestamp < u64::MAX,
        ensures
            final(self).wf(),
            final(self).documents@.len() == old(self).documents@.len(),
            final(self).documents@[j as int].0 == old(self).documents@[j as int].0,
            final(self)@ == (ProjectView {
                documents: old(self)@.documents.insert(
                    old(self).documents@[j as int].0@,
                    after_insert(old(self).documents@[j as int].1@, pos as nat, text@),
                ),
                ..old(self)@
            }),
            ins.text == text,
    {
        let (name, mut doc) = self.documents.remove(j);
        let ins = doc.insert(pos, text);
        self.documents.insert(j, (name, doc));
        proof {
            assert(self.documents@ =~= old(self).documents@.update(j as int, self.documents@[j as int]));
            lemma_assoc_update(old(self).documents@, j as int, self.documents@[j as int], |d: Document| d@);
            assert forall|i: int| 0 <= i < self.documents@.len() implies (#[trigger] self.documents@[i]).1.wf() by {
                if i != j {
                    assert(self.documents@[i] == old(self).documents@[i]);
                }
            }
        }
        ins
    }

    /// Deletes the bytes `start..end` of the document at position `j`.
    pub fn delete_in_file(&mut self, j: usize, start: usize, end: usize)
        requires
            old(self).wf(),
            j < old(self).documents@.len(),
            start <= end,
            boundary(old(self).documents@[j as int].1@.text, start as int),
            boundary(old(self).documents@[j as int].1@.text, end as int),
            old(self).documents@[j as int].1@.timestamp < u64::MAX,
        ensures
            final(self).wf(),
            final(self).documents@.len() == old(self).documents@.len(),
            final(self).documents@[j as int].0 == old(self).documents@[j as int].0,
            final(self)@ == (ProjectView {
                documents: old(self)@.documents.insert(
                    old(self).documents@[j as int].0@,
                    after_delete(old(self).documents@[j as int].1@, start as nat, end as nat),
                ),
                ..old(self)@
            }),
    {
        let (name, mut doc) = self.documents.remove(j);
        let _deletion = doc.delete(start..end);
        self.documents.insert(j, (name, doc));
        proof {
            assert(self.documents@ =~= old(self).documents@.update(j as int, self.documents@[j as int]));
            lemma_assoc_update(old(self).documents@, j as int, self.documents@[j as int], |d: Document| d@);
            assert forall|i: int| 0 <= i < self.documents@.len() implies (#[trigger] self.documents@[i]).1.wf() by {
                if i != j {
                    assert(self.documents@[i] == old(self).documents@[i]);
                }
            }
        }
    }

    /// Adds the file `path` to the tree (creating the directories on the way)
    /// and records `document` as its content. A directory on the way that is
    /// a file makes this panic, so it is excluded.
    pub fn add_file(&mut self, path: &String, document: Document)
        requires
            old(self).wf(),
            document.wf(),
            can_add(old(self).files->0@, path_parts(path@)),
        ensures
            final(self).wf(),
            forall|p: Seq<Seq<char>>|
                #[trigger] node_lookup(final(self)@.files, p) == after_add(
                    node_lookup(old(self)@.files, p),
                    path_parts(path@),
                    p,
                ),
            final(self)@ == (ProjectView {
                files: final(self)@.files,
                documents: old(self)@.documents.insert(path@, document@),
                ..old(self)@
            }),
    {
        let parts = split_path(path.as_str());
        let mut files = FileNode::Directory(Vec::new());
        std::mem::swap(&mut files, &mut self.files);
        match files {
            FileNode::Directory(entries) => {
                let ghost old_entries = entries@;
                assert(strings_view(parts@).skip(0) =~= strings_view(parts@));
                let new_entries = add_in_dir(entries, &parts, 0);
                self.files = FileNode::Directory(new_entries);
                proof {
                    assert forall|p: Seq<Seq<char>>|
                        #[trigger] node_lookup(self.files, p) == after_add(
                            node_lookup(old(self).files, p),
                            path_parts(path@),
                            p,
                        ) by {
                        assert(node_lookup(self.files, p) == dir_lookup(self.files->0@, p));
                        assert(node_lookup(old(self).files, p) == dir_lookup(old_entries, p));
                    }
                }
            },
            FileNode::File => {
                proof {
                    assert(false);
                }
            },
        }
        let key = path.clone();
        let ghost old_docs = self.documents@;
        assoc_insert(&mut self.documents, key, document);
        proof {
            if has_key(old_docs, path@) {
                let k = key_index(old_docs, path@);
                lemma_assoc_update(old_docs, k, self.documents@[k], |d: Document| d@);
                assert forall|i: int| 0 <= i < self.documents@.len() implies (#[trigger] self.documents@[i]).1.wf() by {
                    if i != k {
                        assert(self.documents@[i] == old_docs[i]);
                    }
                }
            } else {
                lemma_assoc_push(old_docs, self.documents@.last(), |d: Document| d@);
                assert forall|i: int| 0 <= i < self.documents@.len() implies (#[trigger] self.documents@[i]).1.wf() by {
                    if i < old_docs.len() {
                        assert(self.documents@[i] == old_docs[i]);
                    }
                }
            }
        }
    }

    /// The project's file tree.
    pub fn get_files(&self) -> (f: &FileNode)
        ensures
            *f == self@.files,
    {
        &self.files
    }
}

/// The mathematical value of a [`ProjectManager`].
pub struct ManagerView {
    pub projects: Map<u128, ProjectView>,
    pub next_replica_id: u64,
}

/// Every project, by identifier, and the source of replica identifiers for
/// forks.
pub struct ProjectManager {
    pub projects: HashMap<u128, Project>,
    pub replica_ids: ReplicaIds,
}

impl View for ProjectManager {
    type V = ManagerView;

    open spec fn view(&self) -> ManagerView {
        ManagerView {
            projects: self.projects@.map_values(|p: Project| p@),
            next_replica_id: self.replica_ids.next_id(),
        }
    }
}

impl ProjectManager {
    /// Every project is well formed and filed under its own identifier.
    pub open spec fn wf(&self) -> bool {
        forall|id: u128|
            #[trigger] self.projects@.contains_key(id) ==> self.projects@[id].wf()
                && self.projects@[id].id == id
    }

    pub fn new() -> (m: Self)
        ensures
            m.wf(),
            m@.projects == Map::<u128, ProjectView>::empty(),
            m@.next_replica_id == 1,
    {
        let m = ProjectManager { projects: HashMap::new(), replica_ids: ReplicaIds::new() };
        assert(m@.projects =~= Map::<u128, ProjectView>::empty());
        m
    }

    /// Files `project` under its identifier, replacing any project there.
    pub fn add_project(&mut self, project: Project)
        requires
            old(self).wf(),
            project.wf(),
        ensures
            final(self).wf(),
            final(self)@ == (ManagerView {
                projects: old(self)@.projects.insert(project.id, project@),
                ..old(self)@
            }),
    {
        let ghost pv = project@;
        let id = project.id;
        self.projects.insert(id, project);
        assert(self@.projects =~= old(self)@.projects.insert(id, pv));
    }

    /// The project with identifier `id`, if there is one.
    pub fn get_project(&self, id: u128) -> (r: Option<&Project>)
        requires
            self.wf(),
        ensures
            match r {
                Some(p) => self@.projects.contains_key(id) && p@ == self@.projects[id] && p.wf()
                    && p.id == id && *p == self.projects@[id],
                None => !self@.projects.contains_key(id),
            },
    {
        self.projects.get(&id)
    }

    /// Removes the project with identifier `id` and hands it over, so that it
    /// can be changed and filed again with [`ProjectManager::add_project`].
    pub fn take_project(&mut self, id: u128) -> (r: Option<Project>)
        requires
            old(self).wf(),
        ensures
            final(self).wf(),
            final(self)@.next_replica_id == old(self)@.next_replica_id,
            r is Some ==> {
                &&& old(self)@.projects.contains_key(id)
                &&& r->0@ == old(self)@.projects[id]
                &&& r->0.wf()
                &&& r->0.id == id
                &&& final(self)@.projects == old(self)@.projects.remove(id)
            },
            r is None ==> !old(self)@.projects.contains_key(id) && final(self)@ == old(self)@,
    {
        proof {
            if self.projects@.contains_key(id) {
                assert(self.projects@[id].wf());
            }
        }
        let r = self.projects.remove(&id);
        assert(self@.projects =~= old(self)@.projects.remove(id));
        proof {
            if r is None {
                assert(old(self)@.projects.remove(id) =~= old(self)@.projects);
            }
        }
        r
    }
}

} // verus!
