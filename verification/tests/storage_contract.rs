//! Scenario tests driving the in-memory reference backend through the
//! storage contract: schema management, the write-transaction protocol,
//! batch index creation, and error classification.

use elmo::Document;
use elmo::Error;
use elmo::IndexInfo;
use elmo::IndexKey;
use elmo::MemConnection;
use elmo::StorageReader;

fn doc(id: u64, body: &[u8]) -> Document {
    Document { id, body: body.to_vec() }
}

fn index(db: &str, coll: &str, name: &str, fields: &[(&str, i32)]) -> IndexInfo {
    IndexInfo {
        db: db.to_string(),
        coll: coll.to_string(),
        name: name.to_string(),
        keys: fields
            .iter()
            .map(|(f, d)| IndexKey { field: f.to_string(), direction: *d })
            .collect(),
        options: Vec::new(),
    }
}

fn names(conn: &mut MemConnection) -> Vec<(String, String)> {
    let mut l: Vec<(String, String)> = conn
        .list_collections()
        .unwrap()
        .into_iter()
        .map(|(d, c, _)| (d, c))
        .collect();
    l.sort();
    l
}

fn drain_ids(conn: &mut MemConnection, db: &str, coll: &str) -> Vec<u64> {
    let mut r = conn.begin_read(db, coll, None).unwrap();
    let mut ids = Vec::new();
    while let Some(item) = r.next_doc() {
        ids.push(item.unwrap().id);
    }
    ids
}

#[test]
fn listing_reflects_creates_and_drops() {
    let mut conn = MemConnection::new();
    assert_eq!(names(&mut conn), Vec::<(String, String)>::new());
    assert!(conn.create_collection("d", "a", vec![1]).unwrap());
    assert!(conn.create_collection("d", "b", vec![2]).unwrap());
    assert!(conn.create_collection("e", "a", vec![]).unwrap());
    assert_eq!(
        names(&mut conn),
        vec![
            ("d".to_string(), "a".to_string()),
            ("d".to_string(), "b".to_string()),
            ("e".to_string(), "a".to_string()),
        ]
    );
    assert!(conn.drop_collection("d", "b").unwrap());
    assert_eq!(
        names(&mut conn),
        vec![("d".to_string(), "a".to_string()), ("e".to_string(), "a".to_string())]
    );
    assert!(!conn.drop_collection("d", "b").unwrap());
}

#[test]
fn create_collection_is_idempotent_on_equal_options() {
    let mut conn = MemConnection::new();
    assert!(conn.create_collection("d", "c", vec![7, 8]).unwrap());
    assert!(!conn.create_collection("d", "c", vec![7, 8]).unwrap());
    let err = conn.create_collection("d", "c", vec![9]).unwrap_err();
    assert!(matches!(err, Error::Misc(_)));
}

#[test]
fn rollback_right_after_begin_changes_nothing() {
    let mut conn = MemConnection::new();
    conn.create_collection("d", "c", vec![3]).unwrap();
    conn.begin_write_tx().unwrap();
    conn.prepare_write("d", "c").unwrap();
    conn.insert(doc(1, b"one")).unwrap();
    conn.commit_tx().unwrap();
    let listing_before = conn.list_collections().unwrap();
    let ids_before = drain_ids(&mut conn, "d", "c");

    conn.begin_write_tx().unwrap();
    conn.rollback_tx().unwrap();

    assert_eq!(conn.list_collections().unwrap(), listing_before);
    assert_eq!(drain_ids(&mut conn, "d", "c"), ids_before);
}

#[test]
fn rolled_back_mutations_are_invisible() {
    let mut conn = MemConnection::new();
    conn.create_collection("d", "c", vec![]).unwrap();
    conn.begin_write_tx().unwrap();
    conn.prepare_write("d", "c").unwrap();
    conn.insert(doc(1, b"one")).unwrap();
    conn.insert(doc(2, b"two")).unwrap();
    conn.rollback_tx().unwrap();
    assert_eq!(drain_ids(&mut conn, "d", "c"), Vec::<u64>::new());
}

#[test]
fn committed_inserts_are_exactly_what_a_reader_yields() {
    let mut conn = MemConnection::new();
    conn.create_collection("d", "c", vec![]).unwrap();
    conn.begin_write_tx().unwrap();
    conn.prepare_write("d", "c").unwrap();
    conn.insert(doc(10, b"ten")).unwrap();
    conn.insert(doc(20, b"twenty")).unwrap();
    conn.insert(doc(30, b"thirty")).unwrap();
    conn.commit_tx().unwrap();

    let mut r = conn.begin_read("d", "c", None).unwrap();
    let first = r.next_doc().unwrap().unwrap();
    assert_eq!(first.id, 10);
    assert_eq!(first.body, b"ten".to_vec());
    assert_eq!(r.next_doc().unwrap().unwrap().id, 20);
    let third = r.next_doc().unwrap().unwrap();
    assert_eq!(third.id, 30);
    assert_eq!(third.body, b"thirty".to_vec());
    assert!(r.next_doc().is_none());
}

#[test]
fn uncommitted_writes_are_invisible_to_readers() {
    let mut conn = MemConnection::new();
    conn.create_collection("d", "c", vec![]).unwrap();
    conn.begin_write_tx().unwrap();
    conn.prepare_write("d", "c").unwrap();
    conn.insert(doc(1, b"pending")).unwrap();
    assert_eq!(drain_ids(&mut conn, "d", "c"), Vec::<u64>::new());
    conn.commit_tx().unwrap();
    assert_eq!(drain_ids(&mut conn, "d", "c"), vec![1]);
}

#[test]
fn insert_without_prepare_fails_with_a_state_error() {
    let mut conn = MemConnection::new();
    let err = conn.insert(doc(1, b"x")).unwrap_err();
    assert!(matches!(err, Error::Misc(_)));
    conn.begin_write_tx().unwrap();
    let err = conn.insert(doc(1, b"x")).unwrap_err();
    assert!(matches!(err, Error::Misc(_)));
    conn.rollback_tx().unwrap();
}

#[test]
fn mutations_need_a_prepared_target() {
    let mut conn = MemConnection::new();
    assert!(matches!(conn.update(doc(1, b"x")).unwrap_err(), Error::Misc(_)));
    assert!(matches!(conn.delete(doc(1, b"x")).unwrap_err(), Error::Misc(_)));
    assert!(matches!(conn.prepare_write("d", "c").unwrap_err(), Error::Misc(_)));
    assert!(matches!(conn.unprepare_write().unwrap_err(), Error::Misc(_)));
    assert!(matches!(conn.commit_tx().unwrap_err(), Error::Misc(_)));
    assert!(matches!(conn.rollback_tx().unwrap_err(), Error::Misc(_)));
}

#[test]
fn one_transaction_at_a_time() {
    let mut conn = MemConnection::new();
    conn.begin_write_tx().unwrap();
    assert!(matches!(conn.begin_write_tx().unwrap_err(), Error::Misc(_)));
    conn.rollback_tx().unwrap();
    conn.begin_write_tx().unwrap();
    conn.commit_tx().unwrap();
}

#[test]
fn prepare_unprepare_moves_between_collections() {
    let mut conn = MemConnection::new();
    conn.begin_write_tx().unwrap();
    conn.prepare_write("d", "a").unwrap();
    conn.insert(doc(1, b"in a")).unwrap();
    assert!(matches!(conn.prepare_write("d", "b").unwrap_err(), Error::Misc(_)));
    conn.unprepare_write().unwrap();
    conn.prepare_write("d", "b").unwrap();
    conn.insert(doc(1, b"in b")).unwrap();
    conn.commit_tx().unwrap();
    assert_eq!(drain_ids(&mut conn, "d", "a"), vec![1]);
    assert_eq!(drain_ids(&mut conn, "d", "b"), vec![1]);
}

#[test]
fn duplicate_keys_update_and_delete() {
    let mut conn = MemConnection::new();
    conn.begin_write_tx().unwrap();
    conn.prepare_write("d", "c").unwrap();
    conn.insert(doc(5, b"v1")).unwrap();
    assert!(matches!(conn.insert(doc(5, b"again")).unwrap_err(), Error::Misc(_)));
    assert!(matches!(conn.update(doc(6, b"missing")).unwrap_err(), Error::Misc(_)));
    conn.update(doc(5, b"v2")).unwrap();
    assert!(!conn.delete(doc(7, b"")).unwrap());
    assert!(conn.delete(doc(5, b"")).unwrap());
    assert!(!conn.delete(doc(5, b"")).unwrap());
    conn.insert(doc(5, b"v3")).unwrap();
    conn.commit_tx().unwrap();
    let mut r = conn.begin_read("d", "c", None).unwrap();
    let d = r.next_doc().unwrap().unwrap();
    assert_eq!(d.id, 5);
    assert_eq!(d.body, b"v3".to_vec());
    assert!(r.next_doc().is_none());
}

#[test]
fn schema_operations_are_refused_inside_a_transaction() {
    let mut conn = MemConnection::new();
    conn.create_collection("d", "c", vec![]).unwrap();
    conn.begin_write_tx().unwrap();
    assert!(matches!(conn.create_collection("d", "x", vec![]).unwrap_err(), Error::Misc(_)));
    assert!(matches!(conn.drop_collection("d", "c").unwrap_err(), Error::Misc(_)));
    assert!(matches!(conn.drop_database("d").unwrap_err(), Error::Misc(_)));
    assert!(matches!(conn.clear_collection("d", "c").unwrap_err(), Error::Misc(_)));
    assert!(matches!(
        conn.rename_collection("d.c", "d.x", false).unwrap_err(),
        Error::Misc(_)
    ));
    assert!(matches!(
        conn.create_indexes(vec![index("d", "c", "i", &[("f", 1)])]).unwrap_err(),
        Error::Misc(_)
    ));
    conn.rollback_tx().unwrap();
    assert_eq!(names(&mut conn), vec![("d".to_string(), "c".to_string())]);
}

#[test]
fn rename_fails_on_existing_target_without_drop_target() {
    let mut conn = MemConnection::new();
    conn.create_collection("d", "a", vec![]).unwrap();
    conn.create_collection("d", "b", vec![]).unwrap();
    let err = conn.rename_collection("d.a", "d.b", false).unwrap_err();
    assert!(matches!(err, Error::Misc(_)));
    assert_eq!(
        names(&mut conn),
        vec![("d".to_string(), "a".to_string()), ("d".to_string(), "b".to_string())]
    );
}

#[test]
fn rename_with_drop_target_replaces_the_target() {
    let mut conn = MemConnection::new();
    conn.create_collection("d", "a", vec![]).unwrap();
    conn.create_collection("d", "b", vec![]).unwrap();
    conn.begin_write_tx().unwrap();
    conn.prepare_write("d", "a").unwrap();
    conn.insert(doc(1, b"from a")).unwrap();
    conn.commit_tx().unwrap();

    assert!(conn.rename_collection("d.a", "d.b", true).unwrap());
    assert_eq!(names(&mut conn), vec![("d".to_string(), "b".to_string())]);
    assert_eq!(drain_ids(&mut conn, "d", "b"), vec![1]);
    assert_eq!(drain_ids(&mut conn, "d", "a"), Vec::<u64>::new());
}

#[test]
fn rename_to_a_fresh_name_moves_indexes_along() {
    let mut conn = MemConnection::new();
    conn.create_collection("d", "a", vec![]).unwrap();
    conn.create_indexes(vec![index("d", "a", "i1", &[("f", 1)])]).unwrap();
    assert!(!conn.rename_collection("d.a", "e.z", false).unwrap());
    assert_eq!(names(&mut conn), vec![("e".to_string(), "z".to_string())]);
    let ixs = conn.list_indexes().unwrap();
    assert_eq!(ixs.len(), 1);
    assert_eq!(ixs[0].db, "e");
    assert_eq!(ixs[0].coll, "z");
    assert_eq!(ixs[0].name, "i1");
}

#[test]
fn rename_rejects_bad_namespaces_and_missing_source() {
    let mut conn = MemConnection::new();
    conn.create_collection("d", "a", vec![]).unwrap();
    assert!(matches!(
        conn.rename_collection("nodot", "d.b", false).unwrap_err(),
        Error::Misc(_)
    ));
    assert!(matches!(
        conn.rename_collection("d.a", "nodot", false).unwrap_err(),
        Error::Misc(_)
    ));
    assert!(matches!(
        conn.rename_collection("d.a", "d.a", true).unwrap_err(),
        Error::Misc(_)
    ));
    assert!(matches!(
        conn.rename_collection("d.missing", "d.b", false).unwrap_err(),
        Error::Misc(_)
    ));
}

fn index_names(conn: &mut MemConnection) -> Vec<(String, String, String)> {
    conn.list_indexes()
        .unwrap()
        .into_iter()
        .map(|x| (x.db, x.coll, x.name))
        .collect()
}

#[test]
fn index_batch_is_all_or_nothing() {
    let mut conn = MemConnection::new();
    conn.create_collection("d", "c", vec![]).unwrap();
    conn.create_indexes(vec![index("d", "c", "i0", &[("k", 1)])]).unwrap();
    let before = index_names(&mut conn);
    let batch = vec![
        index("d", "c", "i1", &[("a", 1)]),
        index("d", "c", "i2", &[("b", 7)]),
        index("d", "c", "i3", &[("c", -1)]),
    ];
    let err = conn.create_indexes(batch).unwrap_err();
    assert!(matches!(err, Error::Misc(_)));
    let after = index_names(&mut conn);
    assert_eq!(after, before);
    assert_eq!(after, vec![("d".to_string(), "c".to_string(), "i0".to_string())]);
}

#[test]
fn index_creation_reports_new_and_idempotent_entries() {
    let mut conn = MemConnection::new();
    conn.create_collection("d", "c", vec![]).unwrap();
    let flags = conn
        .create_indexes(vec![
            index("d", "c", "i1", &[("a", 1), ("b", -1)]),
            index("d", "c", "i1", &[("a", 1), ("b", -1)]),
            index("d", "c", "i2", &[("z", -1)]),
        ])
        .unwrap();
    assert_eq!(flags, vec![true, false, true]);
    let err = conn
        .create_indexes(vec![index("d", "c", "i1", &[("other", 1)])])
        .unwrap_err();
    assert!(matches!(err, Error::Misc(_)));
    assert!(matches!(
        conn.create_indexes(vec![index("d", "c", "i4", &[])]).unwrap_err(),
        Error::Misc(_)
    ));
    assert!(matches!(
        conn.create_indexes(vec![index("d", "missing", "i5", &[("a", 1)])]).unwrap_err(),
        Error::Misc(_)
    ));
    assert_eq!(conn.list_indexes().unwrap().len(), 2);
}

#[test]
fn drop_index_reports_existence() {
    let mut conn = MemConnection::new();
    conn.create_collection("d", "c", vec![]).unwrap();
    conn.create_indexes(vec![index("d", "c", "i1", &[("a", 1)])]).unwrap();
    assert!(conn.drop_index("d", "c", "i1").unwrap());
    assert!(!conn.drop_index("d", "c", "i1").unwrap());
    assert!(!conn.drop_index("d", "missing", "i1").unwrap());
    assert_eq!(conn.list_indexes().unwrap().len(), 0);
}

#[test]
fn drop_collection_cascades_to_its_indexes() {
    let mut conn = MemConnection::new();
    conn.create_collection("d", "c", vec![]).unwrap();
    conn.create_indexes(vec![index("d", "c", "i1", &[("a", 1)])]).unwrap();
    assert!(conn.drop_collection("d", "c").unwrap());
    assert_eq!(conn.list_indexes().unwrap().len(), 0);
}

#[test]
fn drop_database_removes_all_its_collections() {
    let mut conn = MemConnection::new();
    conn.create_collection("d", "a", vec![]).unwrap();
    conn.create_collection("d", "b", vec![]).unwrap();
    conn.create_collection("e", "a", vec![]).unwrap();
    conn.create_indexes(vec![index("d", "a", "i1", &[("f", 1)])]).unwrap();
    assert!(conn.drop_database("d").unwrap());
    assert_eq!(names(&mut conn), vec![("e".to_string(), "a".to_string())]);
    assert_eq!(conn.list_indexes().unwrap().len(), 0);
    assert!(!conn.drop_database("d").unwrap());
}

#[test]
fn clear_collection_keeps_the_collection_and_its_indexes() {
    let mut conn = MemConnection::new();
    conn.create_collection("d", "c", vec![4]).unwrap();
    conn.create_indexes(vec![index("d", "c", "i1", &[("f", -1)])]).unwrap();
    conn.begin_write_tx().unwrap();
    conn.prepare_write("d", "c").unwrap();
    conn.insert(doc(1, b"x")).unwrap();
    conn.insert(doc(2, b"y")).unwrap();
    conn.commit_tx().unwrap();

    assert!(conn.clear_collection("d", "c").unwrap());
    assert!(!conn.clear_collection("d", "missing").unwrap());
    assert_eq!(drain_ids(&mut conn, "d", "c"), Vec::<u64>::new());
    assert_eq!(names(&mut conn), vec![("d".to_string(), "c".to_string())]);
    assert_eq!(conn.list_indexes().unwrap().len(), 1);
}

#[test]
fn prepare_write_creates_a_missing_collection_on_commit() {
    let mut conn = MemConnection::new();
    conn.begin_write_tx().unwrap();
    conn.prepare_write("d", "fresh").unwrap();
    conn.insert(doc(9, b"n")).unwrap();
    conn.commit_tx().unwrap();
    assert_eq!(names(&mut conn), vec![("d".to_string(), "fresh".to_string())]);
    assert_eq!(drain_ids(&mut conn, "d", "fresh"), vec![9]);
}

#[test]
fn error_kinds_classify_fatality_and_carry_messages() {
    assert!(Error::CorruptFile("bad page").is_fatal());
    assert!(Error::Io("device gone".to_string()).is_fatal());
    assert!(!Error::Misc("state").is_fatal());
    assert!(!Error::Bson("truncated".to_string()).is_fatal());
    assert!(!Error::Utf8("stray byte".to_string()).is_fatal());
    assert!(!Error::Whatever("backend said no".to_string()).is_fatal());
    assert_eq!(Error::Misc("state").message(), "state".to_string());
    assert_eq!(Error::Io("device gone".to_string()).message(), "device gone".to_string());
    assert_eq!(Error::CorruptFile("bad page").message(), "bad page".to_string());
    assert_eq!(Error::Whatever("opaque".to_string()).message(), "opaque".to_string());
}
