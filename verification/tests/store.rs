use liserk_store::message::{
    CountSubject, Delete, DropSubject, Insertion, Message, Update, UpdateStatus,
};
use liserk_store::query::{CompoundQueryBuilder, Query, QueryType, SingleQueryBuilder};
use liserk_store::session::{parse_message, Command};
use liserk_store::store::Datastore;
use liserk_store::wire::{read_frame, ReadOutcome};

fn strings(xs: &[&str]) -> Vec<String> {
    xs.iter().map(|s| s.to_string()).collect()
}

fn insertion(collection: &str, data: Vec<u8>, acl: &[&str], usecases: &[&str]) -> Insertion {
    Insertion {
        collection: collection.to_string(),
        acl: strings(acl),
        data,
        usecases: strings(usecases),
    }
}

#[test]
fn insert_get_roundtrip() {
    let mut db = Datastore::new();
    let ins = insertion("users", vec![0x01, 0x02], &["read"], &["filter"]);
    let id = db.insert_new(&ins).expect("a fresh insertion must land");
    let (data, nonce) = db.get_by_id(&"users".to_string(), &id);
    assert_eq!(data, Some(vec![0x01, 0x02]));
    assert_eq!(nonce, None);
}

#[test]
fn delete_removes() {
    let mut db = Datastore::new();
    let ins = insertion("users", vec![0x01, 0x02], &["read"], &["filter"]);
    let id = db.insert_new(&ins).unwrap();
    let ok = db.delete(&Delete { collection: "users".to_string(), id: id.clone() });
    assert!(ok);
    let (data, _) = db.get_by_id(&"users".to_string(), &id);
    assert_eq!(data, None);
}

#[test]
fn update_semantics() {
    let mut db = Datastore::new();
    let ins = insertion("users", vec![0x01], &[], &["users"]);
    let id = db.insert_new(&ins).unwrap();
    let status = db.update(&Update {
        collection: "users".to_string(),
        id: id.clone(),
        new_value: vec![0x02],
    });
    assert_eq!(status, UpdateStatus::Success);
    let (data, _) = db.get_by_id(&"users".to_string(), &id);
    assert_eq!(data, Some(vec![0x02]));

    let status = db.update(&Update {
        collection: "users".to_string(),
        id: "xxxxxxx".to_string(),
        new_value: vec![0x02],
    });
    assert_eq!(status, UpdateStatus::KeyNotFound);
}

#[test]
fn count_follows_inserts_and_drop() {
    let mut db = Datastore::new();
    let subject = CountSubject::Usecase {
        collection: "users".to_string(),
        usecase: "filter".to_string(),
    };
    assert_eq!(db.count(&subject), 0);
    for k in 0..3u8 {
        db.insert_new(&insertion("users", vec![k], &[], &["filter"])).unwrap();
    }
    assert_eq!(db.count(&subject), 3);
    let ok = db.drop_subject(&DropSubject::Usecase {
        collection: "users".to_string(),
        usecase: "filter".to_string(),
    });
    assert!(ok);
    assert_eq!(db.count(&subject), 0);
    // dropping a whole collection is an unfinished extension point
    assert!(!db.drop_subject(&DropSubject::Collection("users".to_string())));
}

#[test]
fn single_query_returns_indexed_rows() {
    let mut db = Datastore::new();
    db.insert_new(&insertion("users", vec![122, 211], &[], &["filter"])).unwrap();
    let q = SingleQueryBuilder::new()
        .with_collection("users".to_string())
        .with_usecase("filter".to_string())
        .build();
    match db.handle_query(&Query::Single(q)) {
        Message::QueryResponse { data, nonces } => {
            assert_eq!(data, vec![vec![122, 211]]);
            assert_eq!(nonces, Some(vec![]));
        }
        other => panic!("expected a query response, got {:?}", other),
    }
}

#[test]
fn compound_or_within_and() {
    let mut db = Datastore::new();
    db.insert_new(&insertion("users", vec![1, 2, 3, 4], &["read:all"], &["filter"])).unwrap();
    db.insert_new(&insertion("products", vec![5, 6, 7, 8], &["read:all"], &["filter"])).unwrap();
    db.insert_new(&insertion("orders", vec![9, 10, 11, 12], &["read:all"], &["filter"])).unwrap();

    let user_filter = SingleQueryBuilder::new()
        .with_collection("users".to_string())
        .with_usecase("filter".to_string())
        .build();
    let product_filter = SingleQueryBuilder::new()
        .with_collection("products".to_string())
        .with_usecase("filter".to_string())
        .build();
    let sub_query = CompoundQueryBuilder::new()
        .with_query_type(QueryType::Or)
        .with_query(Query::Single(user_filter))
        .with_query(Query::Single(product_filter))
        .build();
    let order_filter = SingleQueryBuilder::new()
        .with_collection("orders".to_string())
        .with_usecase("filter".to_string())
        .build();
    let main_query = CompoundQueryBuilder::new()
        .with_query_type(QueryType::And)
        .with_query(Query::Single(order_filter))
        .with_query(Query::Compound(sub_query))
        .build();

    // the outer layer expands single branches only, so the nested
    // disjunction is passed over and the expected set is exactly the
    // orders row
    match db.handle_query(&Query::Compound(main_query)) {
        Message::QueryResponse { data, nonces } => {
            assert_eq!(data, vec![vec![9, 10, 11, 12]]);
            assert!(nonces.is_some());
        }
        other => panic!("expected a query response, got {:?}", other),
    }
}

#[test]
fn compound_or_unions_rows() {
    let mut db = Datastore::new();
    db.insert_new(&insertion("users", vec![1], &[], &["filter"])).unwrap();
    db.insert_new(&insertion("products", vec![2], &[], &["filter"])).unwrap();
    let user_filter = SingleQueryBuilder::new()
        .with_collection("users".to_string())
        .with_usecase("filter".to_string())
        .build();
    let product_filter = SingleQueryBuilder::new()
        .with_collection("products".to_string())
        .with_usecase("filter".to_string())
        .build();
    let or_query = CompoundQueryBuilder::new()
        .with_query_type(QueryType::Or)
        .with_query(Query::Single(user_filter))
        .with_query(Query::Single(product_filter))
        .build();
    match db.handle_query(&Query::Compound(or_query)) {
        Message::QueryResponse { data, nonces } => {
            assert_eq!(data, vec![vec![1], vec![2]]);
            assert!(nonces.is_some());
        }
        other => panic!("expected a query response, got {:?}", other),
    }
}

#[test]
fn ope_range_query_keeps_values_within_bounds() {
    let mut db = Datastore::new();
    for v in [5i64, 15, 25] {
        let mut cell: Vec<u8> = Vec::new();
        liserk_store::codec::push_i64(&mut cell, v);
        db.insert_new(&insertion("nums", cell, &[], &["filter"])).unwrap();
    }
    let q = SingleQueryBuilder::new()
        .with_collection("nums".to_string())
        .with_usecase("filter".to_string())
        .with_encrypted_field_higher_than(10)
        .with_encrypted_field_less_than(20)
        .build();
    match db.handle_query(&Query::Single(q)) {
        Message::QueryResponse { data, nonces } => {
            let mut expected: Vec<u8> = Vec::new();
            liserk_store::codec::push_i64(&mut expected, 15);
            assert_eq!(data, vec![expected]);
            assert_eq!(nonces, None);
        }
        other => panic!("expected a query response, got {:?}", other),
    }
}

#[test]
fn get_by_ids_returns_present_rows() {
    let mut db = Datastore::new();
    let id1 = db.insert_new(&insertion("users", vec![1], &[], &["filter"])).unwrap();
    let id2 = db.insert_new(&insertion("users", vec![2], &[], &["filter"])).unwrap();
    let q = Query::GetByIds {
        ids: vec![id1, "missing".to_string(), id2],
        collection: "users".to_string(),
    };
    match db.handle_query(&q) {
        Message::QueryResponse { data, nonces } => {
            assert_eq!(data, vec![vec![1], vec![2]]);
            assert_eq!(nonces, Some(vec![]));
        }
        other => panic!("expected a query response, got {:?}", other),
    }
}

#[test]
fn insert_ope_carries_the_rendered_ciphertext() {
    let mut db = Datastore::new();
    let cipher = liserk_store::ope::encrypt_ope(10);
    let message = liserk_store::client::insert_ope_message(
        "nums".to_string(),
        &cipher,
        vec![],
        strings(&["filter"]),
    );
    let expected = liserk_store::ope::big_to_string(&cipher).into_bytes();
    let (reply, command) = parse_message(message, &mut db);
    assert_eq!(command, Command::Continue);
    let id = match reply {
        Some(Message::InsertResponse { inserted_id }) => inserted_id,
        other => panic!("expected an insertion acknowledgement, got {:?}", other),
    };
    let (data, _) = db.get_by_id(&"nums".to_string(), &id);
    assert_eq!(data, Some(expected));
}

#[test]
fn invalid_names_are_rejected_at_the_boundary() {
    let mut db = Datastore::new();
    assert!(db.insert_new(&insertion("bad:name", vec![1], &[], &["filter"])).is_none());
    assert!(db.insert_new(&insertion("users", vec![1], &[], &["bad:usecase"])).is_none());
}

#[test]
fn one_frame_one_reply() {
    let mut db = Datastore::new();
    let m = Message::Insert(insertion("table", vec![12, 1, 2], &[], &["Tomate"]));
    let bytes = m.setup_for_network().unwrap();
    let message = match read_frame(&bytes) {
        ReadOutcome::Complete(m, used) => {
            assert_eq!(used, bytes.len());
            m
        }
        other => panic!("expected a complete frame, got {:?}", other),
    };
    let (reply, command) = parse_message(message, &mut db);
    assert_eq!(command, Command::Continue);
    match reply {
        Some(Message::InsertResponse { inserted_id }) => {
            assert_eq!(inserted_id.len(), 36);
        }
        other => panic!("expected exactly one insertion acknowledgement, got {:?}", other),
    }
}

#[test]
fn end_of_communication_enqueues_the_sentinel() {
    let mut db = Datastore::new();
    let (reply, command) = parse_message(Message::EndOfCommunication, &mut db);
    assert_eq!(reply, Some(Message::CloseCommunication));
    assert_eq!(command, Command::Exit);
    // a response-only variant inbound aborts the connection
    let (reply, command) = parse_message(Message::DeleteResult(true), &mut db);
    assert_eq!(reply, None);
    assert_eq!(command, Command::Exit);
}
