use rsground::file_tree::FileNode;
use rsground::project::{AccessLevel, Project, ProjectManager};
use rsground::protocol::{invalid_message, welcome, ClientMessage, ServerMessage, Session};
use rsground::document::{Action, Document};

const P: u128 = 0x67e5504410b1426f9247bb680e5fe0c8;
const P_TEXT: &str = "67e55044-10b1-426f-9247-bb680e5fe0c8";

fn session(user: &str) -> Session {
    Session { user_id: user.to_string(), access: None }
}

fn send(s: &mut Session, m: &mut ProjectManager, msg: ClientMessage) -> ServerMessage {
    assert!(s.is_admissible(m, &msg));
    s.handle_client_message(m, msg).expect("every message is answered")
}

fn error_text(r: &ServerMessage) -> String {
    match r {
        ServerMessage::Error { message } => message.clone(),
        _ => panic!("expected an error"),
    }
}

fn update_content(r: &ServerMessage) -> (String, String) {
    match r {
        ServerMessage::Update { project_id, file, content } => {
            assert_eq!(*project_id, P);
            (file.clone(), content.clone())
        }
        _ => panic!("expected an update"),
    }
}

fn create(owner: &mut Session, m: &mut ProjectManager, public: bool, password: Option<&str>) {
    let r = send(
        owner,
        m,
        ClientMessage::CreateProject {
            project_id: P,
            name: "demo".to_string(),
            is_public: public,
            password: password.map(|p| p.to_string()),
        },
    );
    assert!(matches!(r, ServerMessage::ProjectCreated { project_id } if project_id == P));
    assert_eq!(owner.access, Some(AccessLevel::Editor));
}

fn insert(s: &mut Session, m: &mut ProjectManager, file: &str, pos: usize, text: &str) -> ServerMessage {
    send(
        s,
        m,
        ClientMessage::Insert { project_id: P, file: file.to_string(), pos, text: text.to_string() },
    )
}

#[test]
fn unknown_project_is_reported() {
    let mut m = ProjectManager::new();
    let mut s = session("ana");
    let r = send(&mut s, &mut m, ClientMessage::GetProjectFiles { project_id: P });
    assert_eq!(error_text(&r), format!("Proyecto {} no encontrado", P_TEXT));
    let r = insert(&mut s, &mut m, "a.rs", 0, "x");
    assert_eq!(error_text(&r), format!("Proyecto {} no encontrado", P_TEXT));
}

#[test]
fn insert_creates_the_file_and_updates() {
    let mut m = ProjectManager::new();
    let mut s = session("ana");
    create(&mut s, &mut m, true, None);
    let r = insert(&mut s, &mut m, "src/main.rs", 0, "fn main() {}");
    assert_eq!(update_content(&r), ("src/main.rs".to_string(), "fn main() {}".to_string()));
    let r = insert(&mut s, &mut m, "src/main.rs", 3, "x");
    assert_eq!(update_content(&r).1, "fn xmain() {}");
    let r = send(
        &mut s,
        &mut m,
        ClientMessage::Delete { project_id: P, file: "src/main.rs".to_string(), range_start: 3, range_end: 4 },
    );
    assert_eq!(update_content(&r).1, "fn main() {}");
    let p = m.get_project(P).unwrap();
    let doc = p.get_file(&"src/main.rs".to_string()).unwrap();
    assert_eq!(doc.timestamp(), 3);
    match p.get_files() {
        FileNode::Directory(entries) => {
            assert_eq!(entries.len(), 1);
            assert_eq!(entries[0].0, "src");
            match &entries[0].1 {
                FileNode::Directory(sub) => {
                    assert_eq!(sub.len(), 1);
                    assert_eq!(sub[0].0, "main.rs");
                    assert!(matches!(sub[0].1, FileNode::File));
                }
                FileNode::File => panic!("src must be a directory"),
            }
        }
        FileNode::File => panic!("the root must be a directory"),
    }
}

#[test]
fn delete_in_a_missing_file_is_reported() {
    let mut m = ProjectManager::new();
    let mut s = session("ana");
    create(&mut s, &mut m, true, None);
    let r = send(
        &mut s,
        &mut m,
        ClientMessage::Delete { project_id: P, file: "x.rs".to_string(), range_start: 0, range_end: 0 },
    );
    assert_eq!(error_text(&r), format!("Archivo 'x.rs' no encontrado en el proyecto {}", P_TEXT));
}

#[test]
fn sync_returns_newer_actions() {
    let mut m = ProjectManager::new();
    let mut s = session("ana");
    create(&mut s, &mut m, true, None);
    insert(&mut s, &mut m, "a.txt", 0, "one");
    insert(&mut s, &mut m, "a.txt", 3, " two");
    let r = send(
        &mut s,
        &mut m,
        ClientMessage::Sync { project_id: P, file: "a.txt".to_string(), last_timestamp: 1 },
    );
    match r {
        ServerMessage::SyncActions { project_id, file, actions } => {
            assert_eq!(project_id, P);
            assert_eq!(file, "a.txt");
            assert_eq!(actions.len(), 1);
            match &actions[0] {
                Action::Insertion { pos, text, timestamp } => {
                    assert_eq!((*pos, text.as_str(), *timestamp), (3, " two", 2));
                }
                _ => panic!("expected an insertion"),
            }
        }
        _ => panic!("expected actions"),
    }
    let r = send(
        &mut s,
        &mut m,
        ClientMessage::Sync { project_id: P, file: "b.txt".to_string(), last_timestamp: 0 },
    );
    assert_eq!(error_text(&r), format!("Archivo 'b.txt' no encontrado en el proyecto {}", P_TEXT));
}

#[test]
fn private_project_needs_the_password() {
    let mut m = ProjectManager::new();
    let mut owner = session("ana");
    create(&mut owner, &mut m, false, Some("pw"));
    let mut guest = session("bob");
    let r = send(
        &mut guest,
        &mut m,
        ClientMessage::JoinProject { project_id: P, access: AccessLevel::ReadOnly, password: Some("no".to_string()) },
    );
    assert_eq!(error_text(&r), "Contraseña incorrecta para proyecto privado");
    assert_eq!(guest.access, None);
    let r = send(
        &mut guest,
        &mut m,
        ClientMessage::JoinProject { project_id: P, access: AccessLevel::ReadOnly, password: None },
    );
    assert_eq!(error_text(&r), "Contraseña incorrecta para proyecto privado");
    let r = send(
        &mut guest,
        &mut m,
        ClientMessage::JoinProject { project_id: P, access: AccessLevel::ReadOnly, password: Some("pw".to_string()) },
    );
    assert!(matches!(r, ServerMessage::JoinedProject { project_id } if project_id == P));
    assert_eq!(guest.access, Some(AccessLevel::ReadOnly));
}

#[test]
fn read_only_session_cannot_edit() {
    let mut m = ProjectManager::new();
    let mut owner = session("ana");
    create(&mut owner, &mut m, true, None);
    insert(&mut owner, &mut m, "a.txt", 0, "abc");
    let mut guest = session("bob");
    let r = send(
        &mut guest,
        &mut m,
        ClientMessage::JoinProject { project_id: P, access: AccessLevel::ReadOnly, password: None },
    );
    assert!(matches!(r, ServerMessage::JoinedProject { .. }));
    let r = insert(&mut guest, &mut m, "a.txt", 0, "x");
    assert_eq!(error_text(&r), "Permiso denegado: modo solo lectura");
    let r = send(
        &mut guest,
        &mut m,
        ClientMessage::Delete { project_id: P, file: "a.txt".to_string(), range_start: 0, range_end: 1 },
    );
    assert_eq!(error_text(&r), "Permiso denegado: modo solo lectura");
    let doc = m.get_project(P).unwrap().get_file(&"a.txt".to_string()).unwrap();
    assert_eq!(doc.buffer(), "abc");
}

#[test]
fn editor_requests_and_grants() {
    let guest_id: u128 = 0x1111;
    let guest_text = "00000000-0000-0000-0000-000000001111";
    let mut m = ProjectManager::new();
    let mut owner = session("ana");
    create(&mut owner, &mut m, true, None);
    let mut guest = session(guest_text);
    for _ in 0..2 {
        let r = send(
            &mut guest,
            &mut m,
            ClientMessage::JoinProject { project_id: P, access: AccessLevel::Editor, password: None },
        );
        assert!(matches!(r, ServerMessage::EditorRequestReceived { project_id } if project_id == P));
    }
    assert_eq!(m.get_project(P).unwrap().pending_editor_requests, vec![guest_text.to_string()]);
    assert_eq!(guest.access, None);
    let r = send(&mut guest, &mut m, ClientMessage::GrantEditor { project_id: P, user_id: guest_id });
    assert_eq!(error_text(&r), "No tienes permisos para otorgar acceso de editor");
    let r = send(&mut owner, &mut m, ClientMessage::GrantEditor { project_id: P, user_id: guest_id });
    assert_eq!(
        update_content(&r),
        (String::new(), format!("Usuario {} ahora tiene permisos de editor", guest_text))
    );
    assert!(m.get_project(P).unwrap().pending_editor_requests.is_empty());
    let r = send(&mut owner, &mut m, ClientMessage::GrantEditor { project_id: P, user_id: guest_id });
    assert_eq!(error_text(&r), "El usuario no tiene una solicitud pendiente");
}

#[test]
fn only_the_owner_permits_access() {
    let mut m = ProjectManager::new();
    let mut owner = session("ana");
    create(&mut owner, &mut m, true, None);
    let mut other = session("bob");
    let r = send(
        &mut other,
        &mut m,
        ClientMessage::PermitAccess { project_id: P, username: "carl".to_string(), access: AccessLevel::Editor },
    );
    assert_eq!(error_text(&r), "Solo el creador del proyecto puede conceder permisos");
    assert!(m.get_project(P).unwrap().allowed_users.is_empty());
    let r = send(
        &mut owner,
        &mut m,
        ClientMessage::PermitAccess { project_id: P, username: "carl".to_string(), access: AccessLevel::Editor },
    );
    assert_eq!(update_content(&r), (String::new(), "Permisos actualizados para el usuario carl".to_string()));
    let r = send(
        &mut owner,
        &mut m,
        ClientMessage::PermitAccess { project_id: P, username: "carl".to_string(), access: AccessLevel::ReadOnly },
    );
    assert!(matches!(r, ServerMessage::Update { .. }));
    let users = &m.get_project(P).unwrap().allowed_users;
    assert_eq!(users.len(), 1);
    assert_eq!(users[0].0, "carl");
    assert_eq!(users[0].1, AccessLevel::ReadOnly);
}

#[test]
fn fork_needs_access_and_copies_the_project() {
    let mut m = ProjectManager::new();
    let mut owner = session("ana");
    create(&mut owner, &mut m, false, Some("pw"));
    insert(&mut owner, &mut m, "dir/a.txt", 0, "hello");
    let mut stranger = session("bob");
    let r = send(&mut stranger, &mut m, ClientMessage::ForkProject { project_id: P });
    assert_eq!(
        error_text(&r),
        "Acceso denegado: se requiere al menos acceso de lectura para forquear"
    );
    stranger.access = Some(AccessLevel::ReadOnly);
    let r = send(&mut stranger, &mut m, ClientMessage::ForkProject { project_id: P });
    let new_id = match r {
        ServerMessage::ProjectForked { old_project_id, new_project_id } => {
            assert_eq!(old_project_id, P);
            new_project_id
        }
        _ => panic!("expected a fork"),
    };
    assert_ne!(new_id, P);
    assert_eq!((new_id >> 76) & 0xf, 4);
    assert_eq!((new_id >> 62) & 0x3, 2);
    assert_eq!(stranger.access, Some(AccessLevel::Editor));
    let fork = m.get_project(new_id).unwrap();
    assert_eq!(fork.name, "demo (fork)");
    assert_eq!(fork.owner, "bob");
    assert_eq!(fork.password, Some("pw".to_string()));
    assert!(!fork.is_public);
    let doc = fork.get_file(&"dir/a.txt".to_string()).unwrap();
    assert_eq!(doc.buffer(), "hello");
    assert_eq!(doc.timestamp(), 1);
    assert_ne!(doc.replica_id(), 0);
    assert_eq!(m.replica_ids.peek(), 3);
}

#[test]
fn project_files_are_copied() {
    let mut m = ProjectManager::new();
    let mut s = session("ana");
    create(&mut s, &mut m, true, None);
    insert(&mut s, &mut m, "a/b.txt", 0, "");
    insert(&mut s, &mut m, "c.txt", 0, "");
    let r = send(&mut s, &mut m, ClientMessage::GetProjectFiles { project_id: P });
    match r {
        ServerMessage::ProjectFiles { project_id, files: FileNode::Directory(entries) } => {
            assert_eq!(project_id, P);
            let names: Vec<&str> = entries.iter().map(|e| e.0.as_str()).collect();
            assert_eq!(names, vec!["a", "c.txt"]);
        }
        _ => panic!("expected the files"),
    }
}

#[test]
fn a_file_where_a_directory_is_needed_is_not_admissible() {
    let mut m = ProjectManager::new();
    let mut s = session("ana");
    create(&mut s, &mut m, true, None);
    insert(&mut s, &mut m, "a", 0, "x");
    let msg = ClientMessage::Insert { project_id: P, file: "a/b".to_string(), pos: 0, text: "y".to_string() };
    assert!(!s.is_admissible(&m, &msg));
    let msg = ClientMessage::Insert { project_id: P, file: "c".to_string(), pos: 1, text: "y".to_string() };
    assert!(!s.is_admissible(&m, &msg));
    let msg = ClientMessage::CreateProject { project_id: 1, name: "p".to_string(), is_public: false, password: None };
    assert!(!s.is_admissible(&m, &msg));
}

#[test]
fn adding_a_file_over_a_directory_replaces_it() {
    let mut p = Project::new("ana".to_string(), P, "demo".to_string(), true, None);
    p.add_file(&"a/b".to_string(), Document::new(String::new(), 1));
    p.add_file(&"a".to_string(), Document::new(String::new(), 1));
    match p.get_files() {
        FileNode::Directory(entries) => {
            assert_eq!(entries.len(), 1);
            assert!(matches!(entries[0].1, FileNode::File));
        }
        FileNode::File => panic!("the root must be a directory"),
    }
}

#[test]
fn greeting_and_unreadable_messages() {
    let s = session("ana");
    assert!(matches!(welcome(&s), ServerMessage::UserConnected { user_id } if user_id == "ana"));
    assert_eq!(error_text(&invalid_message()), "Mensaje inválido");
}
