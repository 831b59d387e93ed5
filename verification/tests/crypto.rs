use liserk_store::cert::{create_certificate, Certificate};
use liserk_store::client::{
    authentication_message, delete_message, insert_message, modify_message, read_insert_response,
    read_query_result, QueryResult, UnconnectedClient,
};
use liserk_store::crypto::{basic_decrypt, basic_encrypt, falcon_keypair, falcon_sign,
    generate_key, generate_nonce, kyber_keypair};
use liserk_store::keys::{acl_key, data_key, is_valid_name, nonce_key, usecase_key};
use liserk_store::message::{Message, MessageType};
use liserk_store::store::fresh_id;

#[test]
fn seal_then_open_roundtrip() {
    let key = [7u8; 32];
    let nonce = [9u8; 12];
    let plaintext = b"attack at dawn".to_vec();
    let sealed = basic_encrypt(&key, &nonce, &plaintext, b"").unwrap();
    assert_eq!(sealed.len(), plaintext.len() + 16);
    assert_ne!(&sealed[..plaintext.len()], &plaintext[..]);
    let opened = basic_decrypt(&key, &nonce, &sealed, b"").unwrap();
    assert_eq!(opened, plaintext);

    let mut tampered = sealed.clone();
    tampered[0] ^= 1;
    assert!(basic_decrypt(&key, &nonce, &tampered, b"").is_err());
}

#[test]
fn key_material_has_the_stated_shapes() {
    let k1 = generate_key().unwrap();
    let k2 = generate_key().unwrap();
    assert_eq!(k1.len(), 32);
    assert_ne!(k1, k2);
    assert_eq!(generate_nonce().unwrap().len(), 12);

    let (pk, sk) = kyber_keypair().unwrap();
    assert_eq!(pk.len(), 1184);
    assert_eq!(sk.len(), 2400);

    let (fpk, fsk) = falcon_keypair();
    assert_eq!(fpk.len(), 897);
    assert_eq!(fsk.len(), 1281);
    let signed = falcon_sign(&pk, &fsk).unwrap();
    assert!(signed.len() <= pk.len() + 752);
    assert!(signed.len() > pk.len());
    // signing accepts exactly keys of the scheme's length
    assert!(falcon_sign(&pk, &fsk[..1280]).is_none());
}

#[test]
fn issued_certificate_is_complete() {
    let key = [3u8; 32];
    let now = 1_700_000_000;
    let (cert, sealed) = create_certificate(&key, now).unwrap();
    assert_eq!(cert.public_key.len(), 1184);
    assert_eq!(cert.identity_info, "Server");
    assert_eq!(cert.issuer_info, "Stuga Cloud Certificate Authority");
    assert_eq!(cert.valid_from, now);
    assert_eq!(cert.valid_to, now + 31_536_000);
    assert_eq!(cert.serial_number.len(), 36);
    assert_eq!(cert.cipher_suits, vec!["kyber768".to_string(), "falcon".to_string()]);
    // the sealing nonce travels in front of the ciphertext
    assert_eq!(sealed.len(), 12 + 2400 + 16);
    let nonce: [u8; 12] = sealed[..12].try_into().unwrap();
    let sk = basic_decrypt(&key, &nonce, &sealed[12..], b"").unwrap();
    assert_eq!(sk.len(), 2400);
}

#[test]
fn assembled_certificate_fields() {
    let cert = Certificate::new(vec![1, 2], vec![3], 100, "serial".to_string());
    assert_eq!(cert.public_key, vec![1, 2]);
    assert_eq!(cert.signature, vec![3]);
    assert_eq!(cert.valid_from, 100);
    assert_eq!(cert.valid_to, 100 + 31_536_000);
    assert_eq!(cert.serial_number, "serial");
}

#[test]
fn identifiers_are_canonical_and_fresh() {
    let a = fresh_id();
    let b = fresh_id();
    assert_eq!(a.len(), 36);
    assert!(!a.contains(':'));
    assert_ne!(a, b);
}

#[test]
fn key_layout_composes_names() {
    let c = "users".to_string();
    let id = "abc".to_string();
    assert_eq!(data_key(&c, &id), "users:abc");
    assert_eq!(acl_key(&c, &id), "users:abc:acl");
    assert_eq!(nonce_key(&c, &id), "users:abc:nonce");
    assert_eq!(usecase_key(&c, &"filter".to_string()), "users:filter:usecase");
    assert!(is_valid_name(&"users".to_string()));
    assert!(!is_valid_name(&"us:ers".to_string()));
}

#[test]
fn client_messages_and_responses() {
    let m = UnconnectedClient.setup_message(vec![1, 2, 3]);
    assert_eq!(m.message_type().tag(), 0);
    let m = authentication_message("Bob".to_string(), "Pomme".to_string());
    assert_eq!(m.message_type().tag(), 1);
    let m = insert_message("users".to_string(), vec![1], vec![], vec![]);
    assert_eq!(m.message_type().tag(), 2);
    let m = modify_message("id".to_string(), "users".to_string(), vec![2]);
    assert_eq!(m.message_type().tag(), 8);
    let m = delete_message("id".to_string(), "users".to_string());
    assert_eq!(m.message_type().tag(), 10);

    let id = read_insert_response(Message::InsertResponse { inserted_id: "x".to_string() });
    assert_eq!(id.unwrap(), "x");
    assert!(read_insert_response(Message::DeleteResult(true)).is_err());

    let r = read_query_result(Message::QueryResponse { data: vec![vec![1]], nonces: None });
    assert_eq!(r.unwrap(), QueryResult::MultipleValues(vec![vec![1]]));
    let r = read_query_result(Message::SingleValueResponse { data: None, nonce: None });
    assert_eq!(r.unwrap(), QueryResult::EmptyResult);
    let r = read_query_result(Message::SingleValueResponse { data: Some(vec![212]), nonce: None });
    assert_eq!(r.unwrap(), QueryResult::SingleValue(vec![212]));
    assert!(read_query_result(Message::EndOfCommunication).is_err());

    assert!(MessageType::from_tag(200).is_err());
}
