use rsground::document::{Action, Document, ReplicaIds};
use rsground::path::split_path;

#[test]
fn new_document_holds_its_text() {
    let d = Document::new("hello".to_string(), 7);
    assert_eq!(d.buffer(), "hello");
    assert_eq!(d.timestamp(), 0);
    assert_eq!(d.replica_id(), 7);
    assert!(d.get_operations_since(0).is_empty());
}

#[test]
fn insert_at_byte_position() {
    let mut d = Document::new("held".to_string(), 1);
    let ins = d.insert(3, "lo wor".to_string());
    assert_eq!(ins.text, "lo wor");
    assert_eq!(d.buffer(), "hello word");
    assert_eq!(d.timestamp(), 1);
    d.insert(0, "¡".to_string());
    assert_eq!(d.buffer(), "¡hello word");
    // "¡" takes two bytes, so byte 2 is the start of "hello".
    d.insert(2, "> ".to_string());
    assert_eq!(d.buffer(), "¡> hello word");
    assert_eq!(d.timestamp(), 3);
}

#[test]
fn insert_at_the_end_of_the_initial_text() {
    let mut d = Document::new("añ".to_string(), 1);
    d.insert(3, "!".to_string());
    assert_eq!(d.buffer(), "añ!");
    let _ = d.delete(0..4);
    assert_eq!(d.buffer(), "");
}

#[test]
fn delete_a_byte_range() {
    let mut d = Document::new("hello world".to_string(), 1);
    let _ = d.delete(5..11);
    assert_eq!(d.buffer(), "hello");
    let _ = d.delete(2..2);
    assert_eq!(d.buffer(), "hello");
    assert_eq!(d.timestamp(), 2);
}

#[test]
fn delete_undoes_insert() {
    let mut d = Document::new("añb".to_string(), 1);
    d.insert(1, "xyz".to_string());
    assert_eq!(d.buffer(), "axyzñb");
    let _ = d.delete(1..4);
    assert_eq!(d.buffer(), "añb");
}

#[test]
fn operations_since_a_timestamp() {
    let mut d = Document::new(String::new(), 1);
    d.insert(0, "abc".to_string());
    let _ = d.delete(0..1);
    d.insert(2, "d".to_string());
    let all = d.get_operations_since(0);
    assert_eq!(all.len(), 3);
    match &all[0] {
        Action::Insertion { pos, text, timestamp } => {
            assert_eq!((*pos, text.as_str(), *timestamp), (0, "abc", 1));
        }
        _ => panic!("expected an insertion"),
    }
    match &all[1] {
        Action::Deletion { range_start, range_end, timestamp } => {
            assert_eq!((*range_start, *range_end, *timestamp), (0, 1, 2));
        }
        _ => panic!("expected a deletion"),
    }
    let later = d.get_operations_since(2);
    assert_eq!(later.len(), 1);
    assert_eq!(later[0].timestamp(), 3);
    assert!(d.get_operations_since(3).is_empty());
    assert!(d.get_operations_since(100).is_empty());
}

#[test]
fn fork_keeps_text_and_history() {
    let mut ids = ReplicaIds::new();
    let mut d = Document::new("x".to_string(), 5);
    d.insert(1, "y".to_string());
    let f = d.fork(9, &mut ids);
    assert_eq!(f.buffer(), "xy");
    assert_eq!(f.replica_id(), 9);
    assert_eq!(f.timestamp(), 1);
    assert_eq!(f.get_operations_since(0).len(), 1);
    assert_eq!(ids.peek(), 1);
}

#[test]
fn fork_under_the_same_identifier_takes_a_fresh_one() {
    let mut ids = ReplicaIds::new();
    let d = Document::new("x".to_string(), 5);
    let f = d.fork(5, &mut ids);
    assert_eq!(f.replica_id(), 1);
    assert_eq!(ids.peek(), 2);
    let g = d.fork(5, &mut ids);
    assert_eq!(g.replica_id(), 2);
}

#[test]
fn replica_ids_count_from_one() {
    let mut ids = ReplicaIds::new();
    assert_eq!(ids.take(), 1);
    assert_eq!(ids.take(), 2);
    assert_eq!(ids.peek(), 3);
}

#[test]
fn split_path_at_slashes() {
    assert_eq!(split_path("a/b/c"), vec!["a", "b", "c"]);
    assert_eq!(split_path("main.rs"), vec!["main.rs"]);
    assert_eq!(split_path(""), vec![""]);
    assert_eq!(split_path("/a"), vec!["", "a"]);
    assert_eq!(split_path("a//b/"), vec!["a", "", "b", ""]);
    assert_eq!(split_path("ñ/é"), vec!["ñ", "é"]);
}
