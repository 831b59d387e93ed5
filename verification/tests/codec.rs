use liserk_store::codec::{decode_message, encode_message};
use liserk_store::message::{
    ClientAuthentication, ClientSetupSecureConnection, CountSubject, Delete, DropSubject,
    Insertion, Message, MessageType, Update, UpdateStatus,
};
use liserk_store::query::{CompoundQueryBuilder, Query, QueryType, SingleQueryBuilder};
use liserk_store::wire::{read_frame, ProtocolError, ReadOutcome};

fn strings(xs: &[&str]) -> Vec<String> {
    xs.iter().map(|s| s.to_string()).collect()
}

fn round_trip(m: Message) -> Message {
    let bytes = encode_message(&m);
    decode_message(&bytes).expect("a message must read back from its own encoding")
}

#[test]
fn round_trip_setup_and_auth() {
    let m = Message::ClientSetup(ClientSetupSecureConnection::new(vec![1, 2, 3]));
    assert_eq!(round_trip(m), Message::ClientSetup(ClientSetupSecureConnection::new(vec![1, 2, 3])));

    let m = Message::ClientAuthentification(ClientAuthentication {
        username: "Bob".to_string(),
        password: "Pomme".to_string(),
    });
    let back = round_trip(m);
    match back {
        Message::ClientAuthentification(a) => {
            assert_eq!(a.username, "Bob");
            assert_eq!(a.password, "Pomme");
        }
        other => panic!("wrong variant: {:?}", other),
    }
}

#[test]
fn round_trip_insert_variants() {
    let ins = Insertion {
        collection: "users".to_string(),
        acl: strings(&["read", "write"]),
        data: vec![0x01, 0x02],
        usecases: strings(&["filter"]),
    };
    let back = round_trip(Message::Insert(ins.clone()));
    assert_eq!(back, Message::Insert(ins.clone()));
    let back = round_trip(Message::InsertOpe(ins.clone()));
    assert_eq!(back, Message::InsertOpe(ins));
    let back = round_trip(Message::InsertResponse { inserted_id: "abc".to_string() });
    assert_eq!(back, Message::InsertResponse { inserted_id: "abc".to_string() });
}

#[test]
fn round_trip_queries() {
    let single = SingleQueryBuilder::default()
        .with_collection("users".to_string())
        .with_usecase("filter".to_string())
        .with_encrypted_field_higher_than(10)
        .with_encrypted_field_less_than(20)
        .build();
    let compound = CompoundQueryBuilder::default()
        .with_query_type(QueryType::Or)
        .with_query(Query::Single(single))
        .with_query(Query::GetById { id: "x".to_string(), collection: "c".to_string() })
        .build();
    let m = Message::Query(Query::Compound(compound));
    let bytes = encode_message(&m);
    let back = decode_message(&bytes).unwrap();
    assert_eq!(back, m);

    let m = Message::Query(Query::GetByIds {
        ids: strings(&["a", "b"]),
        collection: "users".to_string(),
    });
    assert_eq!(round_trip(m), Message::Query(Query::GetByIds {
        ids: strings(&["a", "b"]),
        collection: "users".to_string(),
    }));
}

#[test]
fn round_trip_responses_and_admin() {
    let cases = vec![
        Message::QueryResponse { data: vec![vec![1], vec![2, 3]], nonces: Some(vec![vec![9]]) },
        Message::QueryResponse { data: vec![], nonces: None },
        Message::SingleValueResponse { data: Some(vec![212]), nonce: None },
        Message::SingleValueResponse { data: None, nonce: None },
        Message::Count(CountSubject::Usecase {
            collection: "users".to_string(),
            usecase: "filter".to_string(),
        }),
        Message::Count(CountSubject::Collection("users".to_string())),
        Message::CountResponse(7),
        Message::Update(Update {
            collection: "users".to_string(),
            id: "id1".to_string(),
            new_value: vec![2],
        }),
        Message::UpdateResponse { status: UpdateStatus::KeyNotFound },
        Message::Delete(Delete { collection: "users".to_string(), id: "id1".to_string() }),
        Message::DeleteResult(true),
        Message::DeleteForUsecase { collection: "users".to_string(), id: "id1".to_string() },
        Message::Drop(DropSubject::Usecase {
            collection: "users".to_string(),
            usecase: "filter".to_string(),
        }),
        Message::DropResult(false),
        Message::EndOfCommunication,
        Message::CloseCommunication,
    ];
    for m in cases {
        let bytes = encode_message(&m);
        let back = decode_message(&bytes).unwrap();
        assert_eq!(back, m);
    }
}

#[test]
fn payload_is_well_formed_cbor() {
    let m = Message::Update(Update {
        collection: "users".to_string(),
        id: "id1".to_string(),
        new_value: vec![2, 3, 4],
    });
    let bytes = encode_message(&m);
    let parsed: Result<serde_cbor::Value, _> = serde_cbor::from_slice(&bytes);
    assert!(parsed.is_ok());
}

#[test]
fn truncated_or_garbled_payload_is_refused() {
    let m = Message::DeleteResult(true);
    let mut bytes = encode_message(&m);
    bytes.pop();
    assert!(decode_message(&bytes).is_none());
    assert!(decode_message(&[0xff, 0x00]).is_none());
    assert!(decode_message(&[]).is_none());
}

#[test]
fn frame_layout_is_tag_length_payload() {
    let m = Message::Insert(Insertion {
        collection: "users".to_string(),
        acl: vec![],
        data: vec![1],
        usecases: strings(&["filter"]),
    });
    let payload = encode_message(&m);
    let frame = m.setup_for_network().unwrap();
    assert_eq!(frame[0], 2);
    let n = payload.len() as u32;
    assert_eq!(&frame[1..5], &n.to_be_bytes());
    assert_eq!(&frame[5..], &payload[..]);
}

#[test]
fn tag_table_round_trips() {
    for tag in 0u8..=18 {
        let t = MessageType::from_tag(tag).unwrap();
        assert_eq!(t.tag(), tag);
    }
    assert!(MessageType::from_tag(19).is_err());
    assert!(MessageType::from_tag(0xff).is_err());
}

#[test]
fn read_frame_accepts_a_whole_frame_and_refuses_bad_tags() {
    let m = Message::EndOfCommunication;
    let mut bytes = m.setup_for_network().unwrap();
    bytes.extend_from_slice(&[0xaa, 0xbb]);
    match read_frame(&bytes) {
        ReadOutcome::Complete(back, used) => {
            assert_eq!(back, Message::EndOfCommunication);
            assert_eq!(used, bytes.len() - 2);
        }
        other => panic!("expected a complete frame, got {:?}", other),
    }
    match read_frame(&[0xff, 0, 0, 0, 0]) {
        ReadOutcome::Invalid(e) => assert_eq!(e, ProtocolError::UnknownTag),
        other => panic!("expected an invalid frame, got {:?}", other),
    }
    match read_frame(&[2, 0, 0, 0, 9, 1]) {
        ReadOutcome::Incomplete => {}
        other => panic!("expected an incomplete frame, got {:?}", other),
    }
}

#[test]
fn name_table_round_trips() {
    let accepted = [
        MessageType::Setup,
        MessageType::Authentification,
        MessageType::Insert,
        MessageType::InsertResponse,
        MessageType::Query,
        MessageType::QueryResponse,
        MessageType::SingleValueResponse,
        MessageType::Count,
        MessageType::Update,
        MessageType::UpdateResponse,
        MessageType::Delete,
        MessageType::DeleteResult,
        MessageType::DeleteForUsecase,
        MessageType::Drop,
        MessageType::EndOfCommunication,
        MessageType::CloseCommunication,
    ];
    for t in accepted {
        assert_eq!(MessageType::from_name(&t.name()), Ok(t));
    }
    assert_eq!(MessageType::Setup.name(), "Setup");
    // the extended variants and DropResult are not part of the accepted set
    assert!(MessageType::from_name(&"DropResult".to_string()).is_err());
    assert!(MessageType::from_name(&"InsertOpe".to_string()).is_err());
    assert!(MessageType::from_name(&"CountResponse".to_string()).is_err());
    assert!(MessageType::from_name(&"nonsense".to_string()).is_err());
}
