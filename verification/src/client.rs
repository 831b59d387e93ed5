//! The client's side of the protocol, as far as it computes: building
//! request messages and reading response messages. The socket work
//! around these calls belongs to the program embedding the library.

use vstd::prelude::*;
use crate::message::{Message, MessageV, MessageTypeError, Insertion, ClientAuthentication,
    ClientSetupSecureConnection, Update, Delete};

verus! {

/// What a query handed back, from the client's point of view.
#[derive(Debug, PartialEq, Eq)]
pub enum QueryResult {
    EmptyResult,
    SingleValue(Vec<u8>),
    MultipleValues(Vec<Vec<u8>>),
}

/// A client that has not yet opened a connection.
#[derive(Debug, Clone, Copy, PartialEq, Eq, Structural)]
pub struct UnconnectedClient;

impl UnconnectedClient {
    /// The first message of a connection: the setup for a fresh public
    /// key.
    pub fn setup_message(self, public_key: Vec<u8>) -> (r: Message)
        ensures
            r@ matches MessageV::ClientSetup(s) && s.client_public_key == public_key@
                && s.protocol_version == "0.1.0"@,
    {
        Message::ClientSetup(ClientSetupSecureConnection::new(public_key))
    }
}

/// The authentication message for a username and password.
pub fn authentication_message(username: String, password: String) -> (r: Message)
    ensures
        r@ matches MessageV::ClientAuthentification(a) && a.username == username@ && a.password
            == password@,
{
    Message::ClientAuthentification(ClientAuthentication { username, password })
}

/// The insertion request for a payload under a collection, an
/// access-control list and use cases.
pub fn insert_message(collection: String, data: Vec<u8>, acl: Vec<String>, usecases: Vec<String>)
    -> (r: Message)
    ensures
        r@ matches MessageV::Insert(i) && i.collection == collection@ && i.data == data@ && i.acl
            == acl.deep_view() && i.usecases == usecases.deep_view(),
{
    Message::Insert(Insertion { collection, acl, data, usecases })
}

/// The insertion request for an order-preserving ciphertext: the
/// ciphertext travels as the bytes of its decimal rendering.
pub fn insert_ope_message(
    collection: String,
    number_cipher: &num_bigint::BigInt,
    acl: Vec<String>,
    usecases: Vec<String>,
) -> (r: Message)
    ensures
        r@ matches MessageV::InsertOpe(i) && i.collection == collection@ && i.data
            == vstd::utf8::encode_utf8(crate::ope::spec_decimal(crate::ope::big_value(
            number_cipher,
        ))) && i.acl == acl.deep_view() && i.usecases == usecases.deep_view(),
{
    let rendered = crate::ope::big_to_string(number_cipher);
    let data = vstd::string::StrSliceExecFns::as_bytes_vec(rendered.as_str());
    Message::InsertOpe(Insertion { collection, acl, data, usecases })
}

/// The update request replacing the payload under an identifier.
pub fn modify_message(id: String, collection: String, new_value: Vec<u8>) -> (r: Message)
    ensures
        r@ matches MessageV::Update(u) && u.collection == collection@ && u.id == id@ && u.new_value
            == new_value@,
{
    Message::Update(Update { collection, id, new_value })
}

/// The deletion request for an identifier.
pub fn delete_message(id: String, collection: String) -> (r: Message)
    ensures
        r@ matches MessageV::Delete(d) && d.collection == collection@ && d.id == id@,
{
    Message::Delete(Delete { collection, id })
}

/// Reads an insertion acknowledgement: the generated identifier, or an
/// error for any other message.
pub fn read_insert_response(m: Message) -> (r: Result<String, MessageTypeError>)
    ensures
        (m@ matches MessageV::InsertResponse { inserted_id } ==> r matches Ok(id) && id@
            == inserted_id),
        !(m@ matches MessageV::InsertResponse { .. }) ==> r is Err,
{
    match m {
        Message::InsertResponse { inserted_id } => Ok(inserted_id),
        _ => Err(MessageTypeError {}),
    }
}

/// Reads a query reply into the client's result shape: a row list, one
/// row or its absence; any other message is an error.
pub fn read_query_result(m: Message) -> (r: Result<QueryResult, MessageTypeError>)
    ensures
        (m@ matches MessageV::QueryResponse { data, nonces } ==> r matches Ok(q) && (
        q matches QueryResult::MultipleValues(vs) && vs.deep_view() == data)),
        (m@ matches MessageV::SingleValueResponse { data, nonce } ==> r matches Ok(q) && (match data {
            Some(v) => q matches QueryResult::SingleValue(b) && b@ == v,
            None => q == QueryResult::EmptyResult,
        })),
        !(m@ matches MessageV::QueryResponse { .. } || m@ matches MessageV::SingleValueResponse {
            ..
        }) ==> r is Err,
{
    match m {
        Message::QueryResponse { data, nonces } => {
            let _ = nonces;
            Ok(QueryResult::MultipleValues(data))
        }
        Message::SingleValueResponse { data, nonce } => {
            let _ = nonce;
            match data {
                Some(v) => Ok(QueryResult::SingleValue(v)),
                None => Ok(QueryResult::EmptyResult),
            }
        }
        _ => Err(MessageTypeError {}),
    }
}

} // verus!
