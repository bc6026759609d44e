//! Tests of the Storage Reader: lazy iteration, the keys-examined
//! diagnostic counter, snapshot isolation, and early drop.

use elmo::Document;
use elmo::MemConnection;
use elmo::StorageReader;

fn fill(conn: &mut MemConnection, db: &str, coll: &str, n: u64) {
    conn.begin_write_tx().unwrap();
    conn.prepare_write(db, coll).unwrap();
    let mut id: u64 = 1;
    while id <= n {
        conn.insert(Document { id, body: vec![id as u8] }).unwrap();
        id += 1;
    }
    conn.commit_tx().unwrap();
}

#[test]
fn keys_examined_starts_at_zero_and_never_decreases() {
    let mut conn = MemConnection::new();
    fill(&mut conn, "d", "c", 3);
    let mut r = conn.begin_read("d", "c", None).unwrap();
    assert_eq!(r.get_total_keys_examined(), 0);
    let mut last: u64 = 0;
    while let Some(item) = r.next_doc() {
        item.unwrap();
        let now = r.get_total_keys_examined();
        assert!(now >= last);
        last = now;
    }
    assert_eq!(r.get_total_keys_examined(), 3);
    assert!(r.next_doc().is_none());
    assert_eq!(r.get_total_keys_examined(), 3);
}

#[test]
fn reader_over_a_missing_collection_is_empty() {
    let mut conn = MemConnection::new();
    let mut r = conn.begin_read("no", "where", None).unwrap();
    assert_eq!(r.get_total_keys_examined(), 0);
    assert!(r.next_doc().is_none());
}

#[test]
fn dropping_a_reader_mid_iteration_leaves_the_connection_usable() {
    let mut conn = MemConnection::new();
    fill(&mut conn, "d", "c", 100);
    {
        let mut r = conn.begin_read("d", "c", None).unwrap();
        let mut pulled = 0;
        while pulled < 10 {
            let d = r.next_doc().unwrap().unwrap();
            assert_eq!(d.id, pulled + 1);
            pulled += 1;
        }
        assert_eq!(r.get_total_keys_examined(), 10);
    }
    conn.begin_write_tx().unwrap();
    conn.prepare_write("d", "c").unwrap();
    conn.insert(Document { id: 101, body: vec![0] }).unwrap();
    conn.commit_tx().unwrap();
    let mut r = conn.begin_read("d", "c", None).unwrap();
    let mut count = 0;
    while let Some(item) = r.next_doc() {
        item.unwrap();
        count += 1;
    }
    assert_eq!(count, 101);
}

#[test]
fn a_reader_keeps_its_snapshot_while_writes_commit() {
    let mut conn = MemConnection::new();
    fill(&mut conn, "d", "c", 2);
    let mut r = conn.begin_read("d", "c", None).unwrap();
    conn.begin_write_tx().unwrap();
    conn.prepare_write("d", "c").unwrap();
    conn.insert(Document { id: 3, body: vec![3] }).unwrap();
    conn.commit_tx().unwrap();
    let mut seen = Vec::new();
    while let Some(item) = r.next_doc() {
        seen.push(item.unwrap().id);
    }
    assert_eq!(seen, vec![1, 2]);
    let mut r2 = conn.begin_read("d", "c", None).unwrap();
    let mut seen2 = Vec::new();
    while let Some(item) = r2.next_doc() {
        seen2.push(item.unwrap().id);
    }
    assert_eq!(seen2, vec![1, 2, 3]);
}

#[test]
fn two_readers_may_be_open_at_once() {
    let mut conn = MemConnection::new();
    fill(&mut conn, "d", "a", 2);
    fill(&mut conn, "d", "b", 1);
    let mut ra = conn.begin_read("d", "a", None).unwrap();
    let mut rb = conn.begin_read("d", "b", None).unwrap();
    assert_eq!(ra.next_doc().unwrap().unwrap().id, 1);
    assert_eq!(rb.next_doc().unwrap().unwrap().id, 1);
    assert_eq!(ra.next_doc().unwrap().unwrap().id, 2);
    assert!(rb.next_doc().is_none());
    assert!(ra.next_doc().is_none());
}

#[test]
fn drain_hands_back_the_whole_snapshot_as_ok() {
    let mut conn = MemConnection::new();
    fill(&mut conn, "d", "c", 5);
    let mut r = conn.begin_read("d", "c", None).unwrap();
    let first = r.next_doc().unwrap().unwrap();
    assert_eq!(first.id, 1);
    let rest = r.drain();
    let ids: Vec<u64> = rest.iter().map(|d| d.id).collect();
    assert_eq!(ids, vec![2, 3, 4, 5]);
    assert!(r.next_doc().is_none());
    let empty = r.drain();
    assert!(empty.is_empty());
}
