//! The session protocol: what the server answers to each client message and
//! how it changes the projects and the session.

use vstd::prelude::*;
use crate::assoc::{has_key, key_index, lemma_assoc_at};
use crate::document::{actions_view, after_delete, after_insert, newer_than, Action, Document, DocumentView};
use crate::file_tree::{after_add, can_add, clone_node, file_on_the_way, node_lookup, node_wf, FileNode};
use crate::ids::{new_uuid_v4, uuid_hyphenated, uuid_text};
use crate::path::{path_parts, split_path, strings_view};
use crate::project::{opt_view, AccessLevel, ManagerView, Project, ProjectManager, ProjectView};
use crate::text::{boundary, concat3, is_boundary, push_str};

verus! {

broadcast use vstd::std_specs::hash::group_hash_axioms;

/// A message from a client.
pub enum ClientMessage {
    CreateProject { project_id: u128, name: String, is_public: bool, password: Option<String> },
    JoinProject { project_id: u128, access: AccessLevel, password: Option<String> },
    Insert { project_id: u128, file: String, pos: usize, text: String },
    Delete { project_id: u128, file: String, range_start: usize, range_end: usize },
    Sync { project_id: u128, file: String, last_timestamp: u64 },
    GetProjectFiles { project_id: u128 },
    GrantEditor { project_id: u128, user_id: u128 },
    PermitAccess { project_id: u128, username: String, access: AccessLevel },
    ForkProject { project_id: u128 },
}

/// A message from the server.
pub enum ServerMessage {
    UserConnected { user_id: String },
    ProjectCreated { project_id: u128 },
    SyncActions { project_id: u128, file: String, actions: Vec<Action> },
    Error { message: String },
    ProjectFiles { project_id: u128, files: FileNode },
    JoinedProject { project_id: u128 },
    EditorRequestReceived { project_id: u128 },
    NewEditorRequest { project_id: u128, user_id: u128 },
    EditorGranted { project_id: u128 },
    Update { project_id: u128, file: String, content: String },
    ProjectForked { old_project_id: u128, new_project_id: u128 },
}

/// One client's connection: who it is and the access it has been given.
pub struct Session {
    pub user_id: String,
    pub access: Option<AccessLevel>,
}

/// The mathematical value of a [`Session`].
pub struct SessionView {
    pub user_id: Seq<char>,
    pub access: Option<AccessLevel>,
}

impl View for Session {
    type V = SessionView;

    open spec fn view(&self) -> SessionView {
        SessionView { user_id: self.user_id@, access: self.access }
    }
}

pub open spec fn wrong_password_text() -> Seq<char> {
    "Contraseña incorrecta para proyecto privado"@
}

pub open spec fn not_owner_grant_text() -> Seq<char> {
    "No tienes permisos para otorgar acceso de editor"@
}

pub open spec fn no_request_text() -> Seq<char> {
    "El usuario no tiene una solicitud pendiente"@
}

pub open spec fn read_only_text() -> Seq<char> {
    "Permiso denegado: modo solo lectura"@
}

pub open spec fn not_owner_permit_text() -> Seq<char> {
    "Solo el creador del proyecto puede conceder permisos"@
}

pub open spec fn fork_denied_text() -> Seq<char> {
    "Acceso denegado: se requiere al menos acceso de lectura para forquear"@
}

/// The answer to a message about a project that does not exist.
pub open spec fn project_not_found_text(id: u128) -> Seq<char> {
    "Proyecto "@ + uuid_hyphenated(id) + " no encontrado"@
}

/// The answer to a message about a file that does not exist.
pub open spec fn file_not_found_text(file: Seq<char>, id: u128) -> Seq<char> {
    "Archivo '"@ + file + "' no encontrado en el proyecto "@ + uuid_hyphenated(id)
}

pub open spec fn editor_granted_text(user: u128) -> Seq<char> {
    "Usuario "@ + uuid_hyphenated(user) + " ahora tiene permisos de editor"@
}

pub open spec fn permissions_updated_text(username: Seq<char>) -> Seq<char> {
    "Permisos actualizados para el usuario "@ + username
}

pub open spec fn fork_name(name: Seq<char>) -> Seq<char> {
    name + " (fork)"@
}

/// The answer to a message that could not be read.
pub open spec fn invalid_message_text() -> Seq<char> {
    "Mensaje inválido"@
}

/// The answer to a message that could not be read.
pub fn invalid_message() -> (r: ServerMessage)
    ensures
        is_error(r, invalid_message_text()),
{
    ServerMessage::Error { message: "Mensaje inválido".to_owned() }
}

/// The greeting sent when a session opens.
pub fn welcome(session: &Session) -> (r: ServerMessage)
    ensures
        r matches ServerMessage::UserConnected { user_id } && user_id@ == session.user_id@,
{
    ServerMessage::UserConnected { user_id: session.user_id.clone() }
}

/// The answer is the error with this text.
pub open spec fn is_error(r: ServerMessage, text: Seq<char>) -> bool {
    r matches ServerMessage::Error { message } && message@ == text
}

/// The answer is an update of `file` of project `id` to `content`.
pub open spec fn is_update(r: ServerMessage, id: u128, file: Seq<char>, content: Seq<char>) -> bool {
    r matches ServerMessage::Update { project_id, file: f, content: c } && project_id == id && f@
        == file && c@ == content
}

/// The projects are those of `m` with project `id` replaced by `p`.
pub open spec fn with_project(m: ManagerView, id: u128, p: ProjectView) -> ManagerView {
    ManagerView { projects: m.projects.insert(id, p), ..m }
}

/// `p` is a newly created project.
pub open spec fn is_new_project(
    p: ProjectView,
    owner: Seq<char>,
    id: u128,
    name: Seq<char>,
    is_public: bool,
    password: Option<Seq<char>>,
) -> bool {
    &&& p.id == id
    &&& p.name == name
    &&& p.owner == owner
    &&& p.files is Directory
    &&& p.files->0@.len() == 0
    &&& p.documents == Map::<Seq<char>, DocumentView>::empty()
    &&& p.allowed_users == Map::<Seq<char>, AccessLevel>::empty()
    &&& p.pending_editor_requests == Seq::<Seq<char>>::empty()
    &&& p.is_public == is_public
    &&& p.password == password
}

/// Two trees name the same paths.
pub open spec fn same_tree(a: FileNode, b: FileNode) -> bool {
    &&& a is Directory == b is Directory
    &&& forall|p: Seq<Seq<char>>| #[trigger] node_lookup(a, p) == node_lookup(b, p)
}

/// `q` is the fork, under identifier `id` and owned by `owner`, of `p`: the
/// same files and documents, nobody else allowed and nothing pending. Each
/// forked document gets a nonzero replica identifier other than its
/// original's: `replica`, unless that is the original's, in which case a
/// fresh one; the fresh ones are distinct, and every identifier given lies in
/// `replica..next` (`next` being the counter after the fork). The forked
/// replicas keep the text's identities and start their own insertions anew.
pub open spec fn is_fork(
    q: ProjectView,
    p: ProjectView,
    id: u128,
    owner: Seq<char>,
    replica: u64,
    next: u64,
) -> bool {
    &&& q.id == id
    &&& q.name == fork_name(p.name)
    &&& q.owner == owner
    &&& same_tree(q.files, p.files)
    &&& q.documents.dom() == p.documents.dom()
    &&& forall|k: Seq<char>|
        #[trigger] q.documents.contains_key(k) ==> {
            &&& q.documents[k].text == p.documents[k].text
            &&& q.documents[k].history == p.documents[k].history
            &&& q.documents[k].timestamp == p.documents[k].timestamp
            &&& q.documents[k].replica_id != 0
            &&& q.documents[k].replica_id != p.documents[k].replica_id
            &&& p.documents[k].replica_id != replica ==> q.documents[k].replica_id == replica
            &&& replica <= q.documents[k].replica_id < next
            &&& q.documents[k].units == p.documents[k].units
            &&& q.documents[k].version == 0
        }
    &&& forall|k1: Seq<char>, k2: Seq<char>|
        #[trigger] q.documents.contains_key(k1) && #[trigger] q.documents.contains_key(k2) && k1
            != k2 && p.documents[k1].replica_id == replica && p.documents[k2].replica_id == replica
            ==> q.documents[k1].replica_id != q.documents[k2].replica_id
    &&& q.allowed_users == Map::<Seq<char>, AccessLevel>::empty()
    &&& q.pending_editor_requests == Seq::<Seq<char>>::empty()
    &&& q.is_public == p.is_public
    &&& q.password == p.password
}

/// A new document: empty, with replica identifier 1.
pub open spec fn fresh_document() -> DocumentView {
    DocumentView {
        text: Seq::empty(),
        replica_id: 1,
        history: Seq::empty(),
        timestamp: 0,
        units: Seq::empty(),
        version: 0,
    }
}

/// The project a message is about.
pub open spec fn message_project(msg: ClientMessage) -> u128 {
    match msg {
        ClientMessage::CreateProject { project_id, .. } => project_id,
        ClientMessage::JoinProject { project_id, .. } => project_id,
        ClientMessage::Insert { project_id, .. } => project_id,
        ClientMessage::Delete { project_id, .. } => project_id,
        ClientMessage::Sync { project_id, .. } => project_id,
        ClientMessage::GetProjectFiles { project_id } => project_id,
        ClientMessage::GrantEditor { project_id, .. } => project_id,
        ClientMessage::PermitAccess { project_id, .. } => project_id,
        ClientMessage::ForkProject { project_id } => project_id,
    }
}

/// What handling `msg` in session `s` with projects `m` leads to: the
/// projects `m2`, the session `s2` and the answer `r`.
pub open spec fn handled(
    m: ManagerView,
    m2: ManagerView,
    s: SessionView,
    s2: SessionView,
    msg: ClientMessage,
    r: ServerMessage,
) -> bool {
    let unchanged = m2 == m && s2 == s;
    &&& s2.user_id == s.user_id
    &&& m2.next_replica_id >= m.next_replica_id
    &&& match msg {
        ClientMessage::CreateProject { project_id, name, is_public, password } => {
            &&& m2.next_replica_id == m.next_replica_id
            &&& m2.projects.contains_key(project_id)
            &&& is_new_project(
                m2.projects[project_id],
                s.user_id,
                project_id,
                name@,
                is_public,
                opt_view(password),
            )
            &&& m2.projects.remove(project_id) == m.projects.remove(project_id)
            &&& s2.access == Some(AccessLevel::Editor)
            &&& r == ServerMessage::ProjectCreated { project_id }
        },
        ClientMessage::JoinProject { project_id, access, password } => {
            let p = m.projects[project_id];
            if !m.projects.contains_key(project_id) {
                unchanged && is_error(r, project_not_found_text(project_id))
            } else if access == AccessLevel::ReadOnly && !p.is_public {
                if p.password is Some && password is Some && p.password->0 == password->0@ {
                    &&& m2 == m
                    &&& s2.access == Some(AccessLevel::ReadOnly)
                    &&& r == ServerMessage::JoinedProject { project_id }
                } else {
                    unchanged && is_error(r, wrong_password_text())
                }
            } else if access == AccessLevel::Editor {
                let pending = p.pending_editor_requests;
                &&& s2 == s
                &&& m2 == with_project(
                    m,
                    project_id,
                    ProjectView {
                        pending_editor_requests: if pending.contains(s.user_id) {
                            pending
                        } else {
                            pending.push(s.user_id)
                        },
                        ..p
                    },
                )
                &&& r == ServerMessage::EditorRequestReceived { project_id }
            } else {
                &&& m2 == m
                &&& s2.access == Some(access)
                &&& r == ServerMessage::JoinedProject { project_id }
            }
        },
        ClientMessage::GrantEditor { project_id, user_id } => {
            let p = m.projects[project_id];
            let pending = p.pending_editor_requests;
            let who = uuid_hyphenated(user_id);
            if !m.projects.contains_key(project_id) {
                unchanged && is_error(r, project_not_found_text(project_id))
            } else if p.owner != s.user_id {
                unchanged && is_error(r, not_owner_grant_text())
            } else if pending.contains(who) {
                &&& s2 == s
                &&& m2 == with_project(
                    m,
                    project_id,
                    ProjectView {
                        pending_editor_requests: pending.remove(pending.index_of(who)),
                        ..p
                    },
                )
                &&& is_update(r, project_id, Seq::empty(), editor_granted_text(user_id))
            } else {
                unchanged && is_error(r, no_request_text())
            }
        },
        ClientMessage::Insert { project_id, file, pos, text } => {
            let p = m.projects[project_id];
            if s.access == Some(AccessLevel::ReadOnly) {
                unchanged && is_error(r, read_only_text())
            } else if !m.projects.contains_key(project_id) {
                unchanged && is_error(r, project_not_found_text(project_id))
            } else if p.documents.contains_key(file@) {
                let d = after_insert(p.documents[file@], pos as nat, text@);
                &&& s2 == s
                &&& m2 == with_project(
                    m,
                    project_id,
                    ProjectView { documents: p.documents.insert(file@, d), ..p },
                )
                &&& is_update(r, project_id, file@, d.text)
            } else {
                let d = after_insert(fresh_document(), pos as nat, text@);
                let q = m2.projects[project_id];
                &&& s2 == s
                &&& m2 == with_project(m, project_id, q)
                &&& q == ProjectView { files: q.files, documents: p.documents.insert(file@, d), ..p }
                &&& forall|path: Seq<Seq<char>>|
                    #[trigger] node_lookup(q.files, path) == after_add(
                        node_lookup(p.files, path),
                        path_parts(file@),
                        path,
                    )
                &&& is_update(r, project_id, file@, d.text)
            }
        },
        ClientMessage::Delete { project_id, file, range_start, range_end } => {
            let p = m.projects[project_id];
            if s.access == Some(AccessLevel::ReadOnly) {
                unchanged && is_error(r, read_only_text())
            } else if !m.projects.contains_key(project_id) {
                unchanged && is_error(r, project_not_found_text(project_id))
            } else if p.documents.contains_key(file@) {
                let d = after_delete(p.documents[file@], range_start as nat, range_end as nat);
                &&& s2 == s
                &&& m2 == with_project(
                    m,
                    project_id,
                    ProjectView { documents: p.documents.insert(file@, d), ..p },
                )
                &&& is_update(r, project_id, file@, d.text)
            } else {
                unchanged && is_error(r, file_not_found_text(file@, project_id))
            }
        },
        ClientMessage::Sync { project_id, file, last_timestamp } => {
            let p = m.projects[project_id];
            &&& unchanged
            &&& if !m.projects.contains_key(project_id) {
                is_error(r, project_not_found_text(project_id))
            } else if !p.documents.contains_key(file@) {
                is_error(r, file_not_found_text(file@, project_id))
            } else {
                r matches ServerMessage::SyncActions { project_id: id, file: f, actions }
                    && id == project_id && f@ == file@ && actions_view(actions@)
                    == p.documents[file@].history.filter(newer_than(last_timestamp as nat))
            }
        },
        ClientMessage::GetProjectFiles { project_id } => {
            &&& unchanged
            &&& if !m.projects.contains_key(project_id) {
                is_error(r, project_not_found_text(project_id))
            } else {
                r matches ServerMessage::ProjectFiles { project_id: id, files } && id == project_id
                    && node_wf(files) && same_tree(files, m.projects[project_id].files)
            }
        },
        ClientMessage::PermitAccess { project_id, username, access } => {
            let p = m.projects[project_id];
            if !m.projects.contains_key(project_id) {
                unchanged && is_error(r, project_not_found_text(project_id))
            } else if p.owner != s.user_id {
                unchanged && is_error(r, not_owner_permit_text())
            } else {
                &&& s2 == s
                &&& m2 == with_project(
                    m,
                    project_id,
                    ProjectView { allowed_users: p.allowed_users.insert(username@, access), ..p },
                )
                &&& is_update(r, project_id, Seq::empty(), permissions_updated_text(username@))
            }
        },
        ClientMessage::ForkProject { project_id } => {
            if s.access is None {
                unchanged && is_error(r, fork_denied_text())
            } else if !m.projects.contains_key(project_id) {
                unchanged && is_error(r, project_not_found_text(project_id))
            } else {
                &&& r matches ServerMessage::ProjectForked { old_project_id, new_project_id }
                &&& r->old_project_id == project_id
                &&& (r->new_project_id >> 76u128) & 0xfu128 == 4
                &&& (r->new_project_id >> 62u128) & 0x3u128 == 2
                &&& m2.projects == m.projects.insert(
                    r->new_project_id,
                    m2.projects[r->new_project_id],
                )
                &&& is_fork(
                    m2.projects[r->new_project_id],
                    m.projects[project_id],
                    r->new_project_id,
                    s.user_id,
                    m.next_replica_id,
                    m2.next_replica_id,
                )
                &&& m2.next_replica_id > m.next_replica_id
                &&& s2.access == Some(AccessLevel::Editor)
            }
        },
    }
}

/// The messages whose handling cannot panic: a private project needs a
/// password; an edit must fall on character boundaries of the document (of
/// the empty new document when the file is new), the document must have a
/// timestamp left, and a new file's directories must not be files; a fork
/// needs a replica identifier for each document.
pub open spec fn admissible(m: &ProjectManager, s: SessionView, msg: ClientMessage) -> bool {
    let mv = m@;
    match msg {
        ClientMessage::CreateProject { is_public, password, .. } => is_public || password is Some,
        ClientMessage::Insert { project_id, file, pos, .. } => {
            s.access != Some(AccessLevel::ReadOnly) && mv.projects.contains_key(project_id) ==> {
                let p = mv.projects[project_id];
                if p.documents.contains_key(file@) {
                    &&& boundary(p.documents[file@].text, pos as int)
                    &&& p.documents[file@].timestamp < u64::MAX
                } else {
                    &&& boundary(Seq::empty(), pos as int)
                    &&& can_add(p.files->0@, path_parts(file@))
                }
            }
        },
        ClientMessage::Delete { project_id, file, range_start, range_end } => {
            s.access != Some(AccessLevel::ReadOnly) && mv.projects.contains_key(project_id)
                && mv.projects[project_id].documents.contains_key(file@) ==> {
                let d = mv.projects[project_id].documents[file@];
                &&& range_start <= range_end
                &&& boundary(d.text, range_start as int)
                &&& boundary(d.text, range_end as int)
                &&& d.timestamp < u64::MAX
            }
        },
        ClientMessage::ForkProject { project_id } => {
            s.access is Some && mv.projects.contains_key(project_id) ==> m.replica_ids.next_id()
                + m.projects@[project_id].documents@.len() + 1 < u64::MAX
        },
        _ => true,
    }
}

fn error(message: String) -> (r: ServerMessage)
    ensures
        is_error(r, message@),
{
    ServerMessage::Error { message }
}

fn project_not_found(id: u128) -> (r: ServerMessage)
    ensures
        is_error(r, project_not_found_text(id)),
{
    error(concat3("Proyecto ", uuid_text(id).as_str(), " no encontrado"))
}

fn file_not_found(file: &String, id: u128) -> (r: ServerMessage)
    ensures
        is_error(r, file_not_found_text(file@, id)),
{
    let mut message = concat3("Archivo '", file.as_str(), "' no encontrado en el proyecto ");
    push_str(&mut message, uuid_text(id).as_str());
    error(message)
}

/// Whether `s` occurs in `v`.
fn contains_string(v: &Vec<String>, s: &String) -> (b: bool)
    ensures
        b == strings_view(v@).contains(s@),
{
    match position_of(v, s) {
        Some(i) => {
            assert(strings_view(v@)[i as int] == s@);
            true
        },
        None => false,
    }
}

/// The first position of `s` in `v`, if it occurs.
fn position_of(v: &Vec<String>, s: &String) -> (r: Option<usize>)
    ensures
        match r {
            Some(i) => i < v@.len() && strings_view(v@)[i as int] == s@ && forall|j: int|
                0 <= j < i ==> strings_view(v@)[j] != s@,
            None => !strings_view(v@).contains(s@),
        },
{
    let mut i: usize = 0;
    while i < v.len()
        invariant
            i <= v@.len(),
            forall|j: int| 0 <= j < i ==> strings_view(v@)[j] != s@,
        decreases v@.len() - i,
    {
        if v[i] == *s {
            return Some(i);
        }
        i = i + 1;
    }
    None
}

impl Session {
    /// Whether handling `msg` can go through without a panic.
    pub fn is_admissible(&self, manager: &ProjectManager, msg: &ClientMessage) -> (b: bool)
        requires
            manager.wf(),
        ensures
            b == admissible(manager, self@, *msg),
    {
        let read_only = match self.access {
            Some(AccessLevel::ReadOnly) => true,
            _ => false,
        };
        match msg {
            ClientMessage::CreateProject { is_public, password, .. } => *is_public
                || password.is_some(),
            ClientMessage::Insert { project_id, file, pos, .. } => {
                if read_only {
                    return true;
                }
                match manager.get_project(*project_id) {
                    None => true,
                    Some(p) => match p.get_file(file) {
                        Some(d) => is_boundary(d.buffer(), *pos) && d.timestamp() < u64::MAX,
                        None => {
                            let empty = String::new();
                            let parts = split_path(file.as_str());
                            match &p.files {
                                FileNode::Directory(entries) => {
                                    proof {
                                        assert(strings_view(parts@).skip(0) =~= path_parts(file@));
                                    }
                                    is_boundary(&empty, *pos) && !file_on_the_way(entries, &parts, 0)
                                },
                                FileNode::File => false,
                            }
                        },
                    },
                }
            },
            ClientMessage::Delete { project_id, file, range_start, range_end } => {
                if read_only {
                    return true;
                }
                match manager.get_project(*project_id) {
                    None => true,
                    Some(p) => match p.get_file(file) {
                        Some(d) => *range_start <= *range_end && is_boundary(d.buffer(), *range_start)
                            && is_boundary(d.buffer(), *range_end) && d.timestamp() < u64::MAX,
                        None => true,
                    },
                }
            },
            ClientMessage::ForkProject { project_id } => {
                if self.access.is_none() {
                    return true;
                }
                match manager.get_project(*project_id) {
                    None => true,
                    Some(p) => {
                        let next = manager.replica_ids.peek();
                        let n = p.documents.len();
                        next < u64::MAX && (n as u64) < u64::MAX - next && next + (n as u64) < u64::MAX - 1
                    },
                }
            },
            _ => true,
        }
    }
}

fn is_read_only(a: Option<AccessLevel>) -> (b: bool)
    ensures
        b == (a == Some(AccessLevel::ReadOnly)),
{
    match a {
        Some(AccessLevel::ReadOnly) => true,
        _ => false,
    }
}

/// Puts back a project that was taken out of the manager.
proof fn lemma_put_back(m: ManagerView, id: u128, v: ProjectView)
    requires
        m.projects.contains_key(id),
    ensures
        m.projects.remove(id).insert(id, v) == m.projects.insert(id, v),
        m.projects.remove(id).insert(id, m.projects[id]) == m.projects,
{
    assert(m.projects.remove(id).insert(id, v) =~= m.projects.insert(id, v));
    assert(m.projects.remove(id).insert(id, m.projects[id]) =~= m.projects);
}

impl Session {
    fn create_project(
        &mut self,
        manager: &mut ProjectManager,
        project_id: u128,
        name: String,
        is_public: bool,
        password: Option<String>,
    ) -> (r: ServerMessage)
        requires
            old(manager).wf(),
            is_public || password is Some,
        ensures
            final(manager).wf(),
            handled(
                old(manager)@,
                final(manager)@,
                old(self)@,
                final(self)@,
                ClientMessage::CreateProject { project_id, name, is_public, password },
                r,
            ),
    {
        let project = Project::new(self.user_id.clone(), project_id, name, is_public, password);
        manager.add_project(project);
        self.access = Some(AccessLevel::Editor);
        proof {
            assert(manager@.projects.remove(project_id) =~= old(manager)@.projects.remove(
                project_id,
            ));
        }
        ServerMessage::ProjectCreated { project_id }
    }

    fn join_project(
        &mut self,
        manager: &mut ProjectManager,
        project_id: u128,
        access: AccessLevel,
        password: Option<String>,
    ) -> (r: ServerMessage)
        requires
            old(manager).wf(),
        ensures
            final(manager).wf(),
            handled(
                old(manager)@,
                final(manager)@,
                old(self)@,
                final(self)@,
                ClientMessage::JoinProject { project_id, access, password },
                r,
            ),
    {
        match manager.take_project(project_id) {
            None => project_not_found(project_id),
            Some(mut project) => {
                proof {
                    lemma_put_back(old(manager)@, project_id, project@);
                }
                let ghost p0 = project@;
                let r;
                if is_read_only(Some(access)) && !project.is_public {
                    let ok = match (&project.password, &password) {
                        (Some(actual), Some(given)) => *actual == *given,
                        _ => false,
                    };
                    if ok {
                        self.access = Some(AccessLevel::ReadOnly);
                        r = ServerMessage::JoinedProject { project_id };
                    } else {
                        r = error("Contraseña incorrecta para proyecto privado".to_owned());
                    }
                } else if !is_read_only(Some(access)) {
                    if !contains_string(&project.pending_editor_requests, &self.user_id) {
                        let ghost before = strings_view(project.pending_editor_requests@);
                        project.pending_editor_requests.push(self.user_id.clone());
                        proof {
                            assert(strings_view(project.pending_editor_requests@) =~= before.push(
                                self.user_id@,
                            ));
                        }
                    }
                    r = ServerMessage::EditorRequestReceived { project_id };
                } else {
                    self.access = Some(access);
                    r = ServerMessage::JoinedProject { project_id };
                }
                manager.add_project(project);
                proof {
                    assert(manager@.projects == old(manager)@.projects.insert(project_id, project@));
                    assert(old(manager)@.projects.contains_key(project_id));
                    if project@ == p0 {
                        assert(manager@ == old(manager)@);
                    }
                }
                r
            },
        }
    }

    fn grant_editor(&self, manager: &mut ProjectManager, project_id: u128, user_id: u128) -> (r:
        ServerMessage)
        requires
            old(manager).wf(),
        ensures
            final(manager).wf(),
            handled(
                old(manager)@,
                final(manager)@,
                self@,
                self@,
                ClientMessage::GrantEditor { project_id, user_id },
                r,
            ),
    {
        match manager.take_project(project_id) {
            None => project_not_found(project_id),
            Some(mut project) => {
                proof {
                    lemma_put_back(old(manager)@, project_id, project@);
                }
                let r;
                if !(project.owner == self.user_id) {
                    r = error("No tienes permisos para otorgar acceso de editor".to_owned());
                } else {
                    let who = uuid_text(user_id);
                    match position_of(&project.pending_editor_requests, &who) {
                        Some(pos) => {
                            let ghost before = strings_view(project.pending_editor_requests@);
                            project.pending_editor_requests.remove(pos);
                            proof {
                                assert(strings_view(project.pending_editor_requests@) =~= before.remove(
                                    pos as int,
                                ));
                                assert(before.index_of(who@) == pos as int);
                            }
                            r = ServerMessage::Update {
                                project_id,
                                file: String::new(),
                                content: concat3(
                                    "Usuario ",
                                    who.as_str(),
                                    " ahora tiene permisos de editor",
                                ),
                            };
                        },
                        None => {
                            r = error("El usuario no tiene una solicitud pendiente".to_owned());
                        },
                    }
                }
                manager.add_project(project);
                proof {
                    assert(manager@.projects == old(manager)@.projects.insert(project_id, project@));
                    assert(old(manager)@.projects.contains_key(project_id));
                    if !(project.owner@ == self.user_id@) {
                        assert(manager@ == old(manager)@);
                    }
                }
                r
            },
        }
    }

    fn permit_access(
        &self,
        manager: &mut ProjectManager,
        project_id: u128,
        username: String,
        access: AccessLevel,
    ) -> (r: ServerMessage)
        requires
            old(manager).wf(),
        ensures
            final(manager).wf(),
            handled(
                old(manager)@,
                final(manager)@,
                self@,
                self@,
                ClientMessage::PermitAccess { project_id, username, access },
                r,
            ),
    {
        match manager.take_project(project_id) {
            None => project_not_found(project_id),
            Some(mut project) => {
                proof {
                    lemma_put_back(old(manager)@, project_id, project@);
                }
                let r;
                if !(project.owner == self.user_id) {
                    r = error("Solo el creador del proyecto puede conceder permisos".to_owned());
                } else {
                    project.permit_access(username.clone(), access);
                    r = ServerMessage::Update {
                        project_id,
                        file: String::new(),
                        content: {
                            let mut c = "Permisos actualizados para el usuario ".to_owned();
                            push_str(&mut c, username.as_str());
                            c
                        },
                    };
                }
                manager.add_project(project);
                proof {
                    assert(manager@.projects == old(manager)@.projects.insert(project_id, project@));
                    assert(old(manager)@.projects.contains_key(project_id));
                    if !(project.owner@ == self.user_id@) {
                        assert(manager@ == old(manager)@);
                    }
                }
                r
            },
        }
    }
}

impl Session {
    fn insert_text(
        &self,
        manager: &mut ProjectManager,
        project_id: u128,
        file: String,
        pos: usize,
        text: String,
    ) -> (r: ServerMessage)
        requires
            old(manager).wf(),
            admissible(old(manager), self@, ClientMessage::Insert { project_id, file, pos, text }),
        ensures
            final(manager).wf(),
            handled(
                old(manager)@,
                final(manager)@,
                self@,
                self@,
                ClientMessage::Insert { project_id, file, pos, text },
                r,
            ),
    {
        if is_read_only(self.access) {
            return error("Permiso denegado: modo solo lectura".to_owned());
        }
        let ghost text_view = text@;
        match manager.take_project(project_id) {
            None => project_not_found(project_id),
            Some(mut project) => {
                let ghost p0 = project@;
                let r = match project.file_index(&file) {
                    Some(j) => {
                        let _ins = project.insert_in_file(j, pos, text);
                        proof {
                            lemma_assoc_at(project.documents@, j as int, |d: Document| d@);
                        }
                        let content = project.documents[j].1.buffer().clone();
                        ServerMessage::Update { project_id, file, content }
                    },
                    None => {
                        let mut doc = Document::new(String::new(), 1);
                        let _ins = doc.insert(pos, text);
                        project.add_file(&file, doc);
                        match project.get_file(&file) {
                            Some(d) => {
                                let content = d.buffer().clone();
                                ServerMessage::Update { project_id, file, content }
                            },
                            None => project_not_found(project_id),
                        }
                    },
                };
                manager.add_project(project);
                proof {
                    lemma_put_back(old(manager)@, project_id, project@);
                    assert(manager@.projects == old(manager)@.projects.insert(project_id, project@));
                    assert(old(manager)@.projects.contains_key(project_id));
                }
                r
            },
        }
    }

    fn delete_text(
        &self,
        manager: &mut ProjectManager,
        project_id: u128,
        file: String,
        range_start: usize,
        range_end: usize,
    ) -> (r: ServerMessage)
        requires
            old(manager).wf(),
            admissible(
                old(manager),
                self@,
                ClientMessage::Delete { project_id, file, range_start, range_end },
            ),
        ensures
            final(manager).wf(),
            handled(
                old(manager)@,
                final(manager)@,
                self@,
                self@,
                ClientMessage::Delete { project_id, file, range_start, range_end },
                r,
            ),
    {
        if is_read_only(self.access) {
            return error("Permiso denegado: modo solo lectura".to_owned());
        }
        match manager.take_project(project_id) {
            None => project_not_found(project_id),
            Some(mut project) => {
                proof {
                    lemma_put_back(old(manager)@, project_id, project@);
                }
                let r = match project.file_index(&file) {
                    Some(j) => {
                        project.delete_in_file(j, range_start, range_end);
                        proof {
                            lemma_assoc_at(project.documents@, j as int, |d: Document| d@);
                        }
                        let content = project.documents[j].1.buffer().clone();
                        ServerMessage::Update { project_id, file, content }
                    },
                    None => file_not_found(&file, project_id),
                };
                manager.add_project(project);
                proof {
                    assert(manager@.projects == old(manager)@.projects.insert(project_id, project@));
                    assert(old(manager)@.projects.contains_key(project_id));
                }
                r
            },
        }
    }

    fn sync(&self, manager: &ProjectManager, project_id: u128, file: String, last_timestamp: u64) -> (r:
        ServerMessage)
        requires
            manager.wf(),
        ensures
            handled(
                manager@,
                manager@,
                self@,
                self@,
                ClientMessage::Sync { project_id, file, last_timestamp },
                r,
            ),
    {
        match manager.get_project(project_id) {
            None => project_not_found(project_id),
            Some(project) => match project.get_file(&file) {
                Some(doc) => {
                    let actions = doc.get_operations_since(last_timestamp);
                    ServerMessage::SyncActions { project_id, file, actions }
                },
                None => file_not_found(&file, project_id),
            },
        }
    }

    fn project_files(&self, manager: &ProjectManager, project_id: u128) -> (r: ServerMessage)
        requires
            manager.wf(),
        ensures
            handled(
                manager@,
                manager@,
                self@,
                self@,
                ClientMessage::GetProjectFiles { project_id },
                r,
            ),
    {
        match manager.get_project(project_id) {
            None => project_not_found(project_id),
            Some(project) => {
                let files = clone_node(project.get_files());
                ServerMessage::ProjectFiles { project_id, files }
            },
        }
    }
}

impl Session {
    fn fork_project(&mut self, manager: &mut ProjectManager, project_id: u128) -> (r: ServerMessage)
        requires
            old(manager).wf(),
            admissible(old(manager), old(self)@, ClientMessage::ForkProject { project_id }),
        ensures
            final(manager).wf(),
            handled(
                old(manager)@,
                final(manager)@,
                old(self)@,
                final(self)@,
                ClientMessage::ForkProject { project_id },
                r,
            ),
    {
        if self.access.is_none() {
            return error(
                "Acceso denegado: se requiere al menos acceso de lectura para forquear".to_owned(),
            );
        }
        let forked = match manager.projects.get(&project_id) {
            None => {
                return project_not_found(project_id);
            },
            Some(project) => {
                proof {
                    assert(old(manager).projects@.contains_key(project_id));
                    assert(*project == old(manager).projects@[project_id]);
                }
                let new_project_id = new_uuid_v4();
                let new_replica_id = manager.replica_ids.take();
                let ghost start = manager.replica_ids.next_id();
                let mut documents: Vec<(String, Document)> = Vec::new();
                let mut i: usize = 0;
                while i < project.documents.len()
                    invariant
                        *project == old(manager).projects@[project_id],
                        manager.projects == old(manager).projects,
                        project.wf(),
                        i <= project.documents@.len(),
                        documents@.len() == i,
                        new_replica_id != 0,
                        start == old(manager).replica_ids.next_id() + 1,
                        new_replica_id == old(manager).replica_ids.next_id(),
                        start <= manager.replica_ids.next_id() <= start + i,
                        old(manager).replica_ids.next_id() + project.documents@.len() + 1 < u64::MAX,
                        forall|k: int| 0 <= k < i ==> (#[trigger] documents@[k]).0@ == project.documents@[k].0@,
                        forall|k: int| 0 <= k < i ==> (#[trigger] documents@[k]).1.wf(),
                        forall|k: int| 0 <= k < i ==> {
                            &&& (#[trigger] documents@[k]).1@.text == project.documents@[k].1@.text
                            &&& documents@[k].1@.history == project.documents@[k].1@.history
                            &&& documents@[k].1@.timestamp == project.documents@[k].1@.timestamp
                            &&& documents@[k].1@.replica_id != 0
                            &&& documents@[k].1@.replica_id != project.documents@[k].1@.replica_id
                            &&& project.documents@[k].1@.replica_id != new_replica_id
                                ==> documents@[k].1@.replica_id == new_replica_id
                            &&& new_replica_id <= documents@[k].1@.replica_id
                                < manager.replica_ids.next_id()
                            &&& documents@[k].1@.units == project.documents@[k].1@.units
                            &&& documents@[k].1@.version == 0
                        },
                        forall|a: int, b: int|
                            0 <= a < b < i && project.documents@[a].1@.replica_id == new_replica_id
                                && project.documents@[b].1@.replica_id == new_replica_id
                                ==> (#[trigger] documents@[a]).1@.replica_id < (
                            #[trigger] documents@[b]).1@.replica_id,
                    decreases project.documents@.len() - i,
                {
                    assert(project.documents@[i as int].1.wf());
                    let d = project.documents[i].1.fork(new_replica_id, &mut manager.replica_ids);
                    proof {
                        d.lemma_wf();
                    }
                    let name = project.documents[i].0.clone();
                    documents.push((name, d));
                    i = i + 1;
                }
                let ghost p_docs = project.documents@;
                proof {
                    assert forall|a: int, b: int|
                        0 <= a < documents@.len() && 0 <= b < documents@.len() && a != b implies (
                        #[trigger] documents@[a]).0@ != (#[trigger] documents@[b]).0@ by {
                        assert(p_docs[a].0@ != p_docs[b].0@);
                    }
                }
                let mut name = project.name.clone();
                push_str(&mut name, " (fork)");
                let password = match &project.password {
                    Some(p) => Some(p.clone()),
                    None => None,
                };
                let files = clone_node(&project.files);
                let forked = Project {
                    id: new_project_id,
                    name,
                    owner: self.user_id.clone(),
                    files,
                    documents,
                    allowed_users: Vec::new(),
                    pending_editor_requests: Vec::new(),
                    is_public: project.is_public,
                    password,
                };
                proof {
                    let q = forked@;
                    let pv = project@;
                    assert(q.allowed_users =~= Map::<Seq<char>, AccessLevel>::empty());
                    assert(q.pending_editor_requests =~= Seq::<Seq<char>>::empty());
                    assert forall|k: Seq<char>| q.documents.contains_key(k) == pv.documents.contains_key(k) by {
                        if has_key(forked.documents@, k) {
                            let j = key_index(forked.documents@, k);
                            assert(p_docs[j].0@ == k);
                        }
                        if has_key(p_docs, k) {
                            let j = key_index(p_docs, k);
                            assert(forked.documents@[j].0@ == k);
                        }
                    }
                    assert(q.documents.dom() =~= pv.documents.dom());
                    assert forall|k: Seq<char>| #[trigger] q.documents.contains_key(k) implies {
                        &&& q.documents[k].text == pv.documents[k].text
                        &&& q.documents[k].history == pv.documents[k].history
                        &&& q.documents[k].timestamp == pv.documents[k].timestamp
                        &&& q.documents[k].replica_id != 0
                        &&& q.documents[k].replica_id != pv.documents[k].replica_id
                        &&& pv.documents[k].replica_id != old(manager)@.next_replica_id
                            ==> q.documents[k].replica_id == old(manager)@.next_replica_id
                        &&& old(manager)@.next_replica_id <= q.documents[k].replica_id
                            < manager.replica_ids.next_id()
                        &&& q.documents[k].units == pv.documents[k].units
                        &&& q.documents[k].version == 0
                    } by {
                        let j = key_index(forked.documents@, k);
                        lemma_assoc_at(forked.documents@, j, |d: Document| d@);
                        lemma_assoc_at(p_docs, j, |d: Document| d@);
                    }
                    assert forall|k1: Seq<char>, k2: Seq<char>|
                        #[trigger] q.documents.contains_key(k1) && #[trigger] q.documents.contains_key(k2)
                            && k1 != k2 && pv.documents[k1].replica_id == old(manager)@.next_replica_id
                            && pv.documents[k2].replica_id == old(manager)@.next_replica_id
                        implies q.documents[k1].replica_id != q.documents[k2].replica_id by {
                        let j1 = key_index(forked.documents@, k1);
                        let j2 = key_index(forked.documents@, k2);
                        lemma_assoc_at(forked.documents@, j1, |d: Document| d@);
                        lemma_assoc_at(p_docs, j1, |d: Document| d@);
                        lemma_assoc_at(forked.documents@, j2, |d: Document| d@);
                        lemma_assoc_at(p_docs, j2, |d: Document| d@);
                        assert(j1 != j2);
                        if j1 < j2 {
                            assert(forked.documents@[j1].1@.replica_id < forked.documents@[j2].1@.replica_id);
                        } else {
                            assert(forked.documents@[j2].1@.replica_id < forked.documents@[j1].1@.replica_id);
                        }
                    }
                }
                forked
            },
        };
        let ghost fv = forked@;
        assert(manager.projects == old(manager).projects);
        let new_project_id = forked.id;
        manager.add_project(forked);
        self.access = Some(AccessLevel::Editor);
        proof {
            assert(manager@.projects == old(manager)@.projects.insert(fv.id, fv));
        }
        ServerMessage::ProjectForked { old_project_id: project_id, new_project_id }
    }

    /// Handles one client message: what [`handled`] states, for every
    /// message that [`admissible`] allows.
    pub fn handle_client_message(&mut self, manager: &mut ProjectManager, msg: ClientMessage) -> (r:
        Option<ServerMessage>)
        requires
            old(manager).wf(),
            admissible(old(manager), old(self)@, msg),
        ensures
            final(manager).wf(),
            r is Some,
            handled(old(manager)@, final(manager)@, old(self)@, final(self)@, msg, r->0),
    {
        let r = match msg {
            ClientMessage::CreateProject { project_id, name, is_public, password } => self.create_project(
                manager,
                project_id,
                name,
                is_public,
                password,
            ),
            ClientMessage::JoinProject { project_id, access, password } => self.join_project(
                manager,
                project_id,
                access,
                password,
            ),
            ClientMessage::GrantEditor { project_id, user_id } => self.grant_editor(
                manager,
                project_id,
                user_id,
            ),
            ClientMessage::Insert { project_id, file, pos, text } => self.insert_text(
                manager,
                project_id,
                file,
                pos,
                text,
            ),
            ClientMessage::Delete { project_id, file, range_start, range_end } => self.delete_text(
                manager,
                project_id,
                file,
                range_start,
                range_end,
            ),
            ClientMessage::Sync { project_id, file, last_timestamp } => self.sync(
                manager,
                project_id,
                file,
                last_timestamp,
            ),
            ClientMessage::GetProjectFiles { project_id } => self.project_files(manager, project_id),
            ClientMessage::PermitAccess { project_id, username, access } => self.permit_access(
                manager,
                project_id,
                username,
                access,
            ),
            ClientMessage::ForkProject { project_id } => self.fork_project(manager, project_id),
        };
        Some(r)
    }
}

} // verus!
