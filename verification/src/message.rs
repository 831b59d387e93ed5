//! The message algebra of the wire protocol: the tagged union of every
//! request and response variant, the payload records it carries, and the
//! fixed table between one-byte type tags and variants.

use vstd::prelude::*;
use crate::query::{Query, QueryV};

verus! {

/// A message exchanged between client and server.
#[derive(Debug, PartialEq, Eq)]
pub enum Message {
    /// Opens a connection: the client announces its protocol version,
    /// public key and cipher suites.
    ClientSetup(ClientSetupSecureConnection),
    /// Carries the client's credentials.
    ClientAuthentification(ClientAuthentication),
    /// Stores an opaque payload under a fresh identifier.
    Insert(Insertion),
    /// Stores an order-preserving ciphertext under a fresh identifier.
    InsertOpe(Insertion),
    /// Acknowledges an insertion with the generated identifier.
    InsertResponse { inserted_id: String },
    /// Runs a query.
    Query(Query),
    /// The rows a query matched, with their nonces when the query was not
    /// an order-preserving range query.
    QueryResponse { data: Vec<Vec<u8>>, nonces: Option<Vec<Vec<u8>>> },
    /// A single row, absent when the identifier is unknown.
    SingleValueResponse { data: Option<Vec<u8>>, nonce: Option<Vec<u8>> },
    /// Counts the rows of a collection or of a use-case index.
    Count(CountSubject),
    /// The answer to a `Count`.
    CountResponse(u32),
    /// Replaces the payload stored under an identifier.
    Update(Update),
    /// The outcome of an `Update`.
    UpdateResponse { status: UpdateStatus },
    /// Removes the row stored under an identifier.
    Delete(Delete),
    /// The outcome of a `Delete`.
    DeleteResult(bool),
    /// Removes a row from the perspective of one use case.
    DeleteForUsecase { collection: String, id: String },
    /// Removes a whole collection or use-case index.
    Drop(DropSubject),
    /// The outcome of a `Drop`.
    DropResult(bool),
    /// The client announces the end of the conversation.
    EndOfCommunication,
    /// Internal sentinel handed to the writer task to shut the write half.
    CloseCommunication,
}

/// Mathematical shape of a [`Message`]: the same tree with sequences in
/// place of vectors and strings. Contracts speak of this type.
pub enum MessageV {
    ClientSetup(ClientSetupSecureConnectionV),
    ClientAuthentification(ClientAuthenticationV),
    Insert(InsertionV),
    InsertOpe(InsertionV),
    InsertResponse { inserted_id: Seq<char> },
    Query(QueryV),
    QueryResponse { data: Seq<Seq<u8>>, nonces: Option<Seq<Seq<u8>>> },
    SingleValueResponse { data: Option<Seq<u8>>, nonce: Option<Seq<u8>> },
    Count(CountSubjectV),
    CountResponse(u32),
    Update(UpdateV),
    UpdateResponse { status: UpdateStatus },
    Delete(DeleteV),
    DeleteResult(bool),
    DeleteForUsecase { collection: Seq<char>, id: Seq<char> },
    Drop(DropSubjectV),
    DropResult(bool),
    EndOfCommunication,
    CloseCommunication,
}

/// What a client sends first: the parameters of the secure session it wants.
#[derive(Debug, Clone, PartialEq, Eq)]
pub struct ClientSetupSecureConnection {
    pub protocol_version: String,
    pub client_public_key: Vec<u8>,
    pub cipher_suits: Vec<String>,
    pub compression: String,
}

pub struct ClientSetupSecureConnectionV {
    pub protocol_version: Seq<char>,
    pub client_public_key: Seq<u8>,
    pub cipher_suits: Seq<Seq<char>>,
    pub compression: Seq<char>,
}

impl View for ClientSetupSecureConnection {
    type V = ClientSetupSecureConnectionV;

    open spec fn view(&self) -> ClientSetupSecureConnectionV {
        ClientSetupSecureConnectionV {
            protocol_version: self.protocol_version@,
            client_public_key: self.client_public_key@,
            cipher_suits: self.cipher_suits.deep_view(),
            compression: self.compression@,
        }
    }
}

impl ClientSetupSecureConnection {
    /// Builds the setup message for a fresh public key, at protocol
    /// version `0.1.0`, offering the kyber768 and falcon suites.
    pub fn new(public_key: Vec<u8>) -> (r: Self)
        ensures
            r@.protocol_version == "0.1.0"@,
            r@.client_public_key == public_key@,
            r@.cipher_suits == seq!["kyber768"@, "falcon"@],
            r@.compression == "0"@,
    {
        let mut suits: Vec<String> = Vec::new();
        suits.push(String::from_str("kyber768"));
        suits.push(String::from_str("falcon"));
        let r = ClientSetupSecureConnection {
            protocol_version: String::from_str("0.1.0"),
            client_public_key: public_key,
            cipher_suits: suits,
            compression: String::from_str("0"),
        };
        assert(r@.cipher_suits =~= seq!["kyber768"@, "falcon"@]);
        r
    }
}

/// Credentials carried by the authentication message.
#[derive(Debug, Clone, PartialEq, Eq)]
pub struct ClientAuthentication {
    pub username: String,
    pub password: String,
}

pub struct ClientAuthenticationV {
    pub username: Seq<char>,
    pub password: Seq<char>,
}

impl View for ClientAuthentication {
    type V = ClientAuthenticationV;

    open spec fn view(&self) -> ClientAuthenticationV {
        ClientAuthenticationV { username: self.username@, password: self.password@ }
    }
}

/// A row to store: its collection, access-control list, opaque payload and
/// the use cases under which it is indexed.
#[derive(Debug, Clone, PartialEq, Eq)]
pub struct Insertion {
    pub collection: String,
    pub acl: Vec<String>,
    pub data: Vec<u8>,
    pub usecases: Vec<String>,
}

pub struct InsertionV {
    pub collection: Seq<char>,
    pub acl: Seq<Seq<char>>,
    pub data: Seq<u8>,
    pub usecases: Seq<Seq<char>>,
}

impl View for Insertion {
    type V = InsertionV;

    open spec fn view(&self) -> InsertionV {
        InsertionV {
            collection: self.collection@,
            acl: self.acl.deep_view(),
            data: self.data@,
            usecases: self.usecases.deep_view(),
        }
    }
}

/// A replacement for the payload stored under `id` in `collection`.
#[derive(Debug, Clone, PartialEq, Eq)]
pub struct Update {
    pub collection: String,
    pub id: String,
    pub new_value: Vec<u8>,
}

pub struct UpdateV {
    pub collection: Seq<char>,
    pub id: Seq<char>,
    pub new_value: Seq<u8>,
}

impl View for Update {
    type V = UpdateV;

    open spec fn view(&self) -> UpdateV {
        UpdateV { collection: self.collection@, id: self.id@, new_value: self.new_value@ }
    }
}

/// The three outcomes of an update: applied, lost to a storage failure,
/// or aimed at a key that does not exist. With the store held in
/// process, commits cannot conflict, so the failure outcome never
/// arises from the engine; it stays for wire compatibility with
/// deployments whose backend can refuse a commit.
#[derive(Debug, Clone, Copy, PartialEq, Eq, Structural)]
pub enum UpdateStatus {
    Success,
    Failure,
    KeyNotFound,
}

/// Names the row to remove.
#[derive(Debug, Clone, PartialEq, Eq)]
pub struct Delete {
    pub collection: String,
    pub id: String,
}

pub struct DeleteV {
    pub collection: Seq<char>,
    pub id: Seq<char>,
}

impl View for Delete {
    type V = DeleteV;

    open spec fn view(&self) -> DeleteV {
        DeleteV { collection: self.collection@, id: self.id@ }
    }
}

/// What a `Count` ranges over: a whole collection, or one use-case index.
#[derive(Debug, Clone, PartialEq, Eq)]
pub enum CountSubject {
    Collection(String),
    Usecase { collection: String, usecase: String },
}

pub enum CountSubjectV {
    Collection(Seq<char>),
    Usecase { collection: Seq<char>, usecase: Seq<char> },
}

impl View for CountSubject {
    type V = CountSubjectV;

    open spec fn view(&self) -> CountSubjectV {
        match self {
            CountSubject::Collection(c) => CountSubjectV::Collection(c@),
            CountSubject::Usecase { collection, usecase } => CountSubjectV::Usecase {
                collection: collection@,
                usecase: usecase@,
            },
        }
    }
}

/// What a `Drop` removes: a whole collection, or one use-case index.
#[derive(Debug, Clone, PartialEq, Eq)]
pub enum DropSubject {
    Collection(String),
    Usecase { collection: String, usecase: String },
}

pub enum DropSubjectV {
    Collection(Seq<char>),
    Usecase { collection: Seq<char>, usecase: Seq<char> },
}

impl View for DropSubject {
    type V = DropSubjectV;

    open spec fn view(&self) -> DropSubjectV {
        match self {
            DropSubject::Collection(c) => DropSubjectV::Collection(c@),
            DropSubject::Usecase { collection, usecase } => DropSubjectV::Usecase {
                collection: collection@,
                usecase: usecase@,
            },
        }
    }
}

impl View for Message {
    type V = MessageV;

    open spec fn view(&self) -> MessageV {
        match self {
            Message::ClientSetup(s) => MessageV::ClientSetup(s@),
            Message::ClientAuthentification(a) => MessageV::ClientAuthentification(a@),
            Message::Insert(i) => MessageV::Insert(i@),
            Message::InsertOpe(i) => MessageV::InsertOpe(i@),
            Message::InsertResponse { inserted_id } => MessageV::InsertResponse {
                inserted_id: inserted_id@,
            },
            Message::Query(q) => MessageV::Query(q@),
            Message::QueryResponse { data, nonces } => MessageV::QueryResponse {
                data: data.deep_view(),
                nonces: nonces.deep_view(),
            },
            Message::SingleValueResponse { data, nonce } => MessageV::SingleValueResponse {
                data: data.deep_view(),
                nonce: nonce.deep_view(),
            },
            Message::Count(s) => MessageV::Count(s@),
            Message::CountResponse(n) => MessageV::CountResponse(*n),
            Message::Update(u) => MessageV::Update(u@),
            Message::UpdateResponse { status } => MessageV::UpdateResponse { status: *status },
            Message::Delete(d) => MessageV::Delete(d@),
            Message::DeleteResult(b) => MessageV::DeleteResult(*b),
            Message::DeleteForUsecase { collection, id } => MessageV::DeleteForUsecase {
                collection: collection@,
                id: id@,
            },
            Message::Drop(s) => MessageV::Drop(s@),
            Message::DropResult(b) => MessageV::DropResult(*b),
            Message::EndOfCommunication => MessageV::EndOfCommunication,
            Message::CloseCommunication => MessageV::CloseCommunication,
        }
    }
}

/// The type tag of a message, one per variant of [`Message`].
///
/// The canonical table assigns 0 through 16; `InsertOpe` and
/// `CountResponse` sit in the extended table at 17 and 18.
#[derive(Debug, Clone, Copy, PartialEq, Eq, Structural)]
pub enum MessageType {
    Setup,
    Authentification,
    Insert,
    InsertResponse,
    Query,
    QueryResponse,
    SingleValueResponse,
    Count,
    Update,
    UpdateResponse,
    Delete,
    DeleteResult,
    DeleteForUsecase,
    Drop,
    DropResult,
    EndOfCommunication,
    CloseCommunication,
    InsertOpe,
    CountResponse,
}

/// The fixed tag for each message type.
pub open spec fn spec_tag_of(t: MessageType) -> u8 {
    match t {
        MessageType::Setup => 0,
        MessageType::Authentification => 1,
        MessageType::Insert => 2,
        MessageType::InsertResponse => 3,
        MessageType::Query => 4,
        MessageType::QueryResponse => 5,
        MessageType::SingleValueResponse => 6,
        MessageType::Count => 7,
        MessageType::Update => 8,
        MessageType::UpdateResponse => 9,
        MessageType::Delete => 10,
        MessageType::DeleteResult => 11,
        MessageType::DeleteForUsecase => 12,
        MessageType::Drop => 13,
        MessageType::DropResult => 14,
        MessageType::EndOfCommunication => 15,
        MessageType::CloseCommunication => 16,
        MessageType::InsertOpe => 17,
        MessageType::CountResponse => 18,
    }
}

/// The message type of each message variant.
pub open spec fn spec_message_type(m: MessageV) -> MessageType {
    match m {
        MessageV::ClientSetup(_) => MessageType::Setup,
        MessageV::ClientAuthentification(_) => MessageType::Authentification,
        MessageV::Insert(_) => MessageType::Insert,
        MessageV::InsertOpe(_) => MessageType::InsertOpe,
        MessageV::InsertResponse { .. } => MessageType::InsertResponse,
        MessageV::Query(_) => MessageType::Query,
        MessageV::QueryResponse { .. } => MessageType::QueryResponse,
        MessageV::SingleValueResponse { .. } => MessageType::SingleValueResponse,
        MessageV::Count(_) => MessageType::Count,
        MessageV::CountResponse(_) => MessageType::CountResponse,
        MessageV::Update(_) => MessageType::Update,
        MessageV::UpdateResponse { .. } => MessageType::UpdateResponse,
        MessageV::Delete(_) => MessageType::Delete,
        MessageV::DeleteResult(_) => MessageType::DeleteResult,
        MessageV::DeleteForUsecase { .. } => MessageType::DeleteForUsecase,
        MessageV::Drop(_) => MessageType::Drop,
        MessageV::DropResult(_) => MessageType::DropResult,
        MessageV::EndOfCommunication => MessageType::EndOfCommunication,
        MessageV::CloseCommunication => MessageType::CloseCommunication,
    }
}

impl Message {
    /// The type tag variant this message travels under.
    pub fn message_type(&self) -> (t: MessageType)
        ensures
            t == spec_message_type(self@),
    {
        match self {
            Message::ClientSetup(_) => MessageType::Setup,
            Message::ClientAuthentification(_) => MessageType::Authentification,
            Message::Insert(_) => MessageType::Insert,
            Message::InsertOpe(_) => MessageType::InsertOpe,
            Message::InsertResponse { .. } => MessageType::InsertResponse,
            Message::Query(_) => MessageType::Query,
            Message::QueryResponse { .. } => MessageType::QueryResponse,
            Message::SingleValueResponse { .. } => MessageType::SingleValueResponse,
            Message::Count(_) => MessageType::Count,
            Message::CountResponse(_) => MessageType::CountResponse,
            Message::Update(_) => MessageType::Update,
            Message::UpdateResponse { .. } => MessageType::UpdateResponse,
            Message::Delete(_) => MessageType::Delete,
            Message::DeleteResult(_) => MessageType::DeleteResult,
            Message::DeleteForUsecase { .. } => MessageType::DeleteForUsecase,
            Message::Drop(_) => MessageType::Drop,
            Message::DropResult(_) => MessageType::DropResult,
            Message::EndOfCommunication => MessageType::EndOfCommunication,
            Message::CloseCommunication => MessageType::CloseCommunication,
        }
    }
}

/// Error of the tag and name tables: the byte or string names no type.
#[derive(Debug, Clone, PartialEq, Eq, Structural)]
pub struct MessageTypeError {}

impl MessageType {
    /// The tag byte of this message type.
    pub fn tag(self) -> (r: u8)
        ensures
            r == spec_tag_of(self),
    {
        match self {
            MessageType::Setup => 0,
            MessageType::Authentification => 1,
            MessageType::Insert => 2,
            MessageType::InsertResponse => 3,
            MessageType::Query => 4,
            MessageType::QueryResponse => 5,
            MessageType::SingleValueResponse => 6,
            MessageType::Count => 7,
            MessageType::Update => 8,
            MessageType::UpdateResponse => 9,
            MessageType::Delete => 10,
            MessageType::DeleteResult => 11,
            MessageType::DeleteForUsecase => 12,
            MessageType::Drop => 13,
            MessageType::DropResult => 14,
            MessageType::EndOfCommunication => 15,
            MessageType::CloseCommunication => 16,
            MessageType::InsertOpe => 17,
            MessageType::CountResponse => 18,
        }
    }

    /// Reads a tag byte back into a message type: the inverse of [`Self::tag`]
    /// on tags 0 through 18, and an error on every other byte.
    pub fn from_tag(v: u8) -> (r: Result<MessageType, MessageTypeError>)
        ensures
            v <= 18 ==> (r matches Ok(t) && spec_tag_of(t) == v),
            v > 18 ==> r is Err,
    {
        match v {
            0 => Ok(MessageType::Setup),
            1 => Ok(MessageType::Authentification),
            2 => Ok(MessageType::Insert),
            3 => Ok(MessageType::InsertResponse),
            4 => Ok(MessageType::Query),
            5 => Ok(MessageType::QueryResponse),
            6 => Ok(MessageType::SingleValueResponse),
            7 => Ok(MessageType::Count),
            8 => Ok(MessageType::Update),
            9 => Ok(MessageType::UpdateResponse),
            10 => Ok(MessageType::Delete),
            11 => Ok(MessageType::DeleteResult),
            12 => Ok(MessageType::DeleteForUsecase),
            13 => Ok(MessageType::Drop),
            14 => Ok(MessageType::DropResult),
            15 => Ok(MessageType::EndOfCommunication),
            16 => Ok(MessageType::CloseCommunication),
            17 => Ok(MessageType::InsertOpe),
            18 => Ok(MessageType::CountResponse),
            _ => Err(MessageTypeError {}),
        }
    }
}

/// The name of each message type, as the textual form of the protocol
/// writes and reads it.
pub open spec fn spec_type_name(t: MessageType) -> Seq<char> {
    match t {
        MessageType::Setup => "Setup"@,
        MessageType::Authentification => "Authentification"@,
        MessageType::Insert => "Insert"@,
        MessageType::InsertResponse => "InsertResponse"@,
        MessageType::Query => "Query"@,
        MessageType::QueryResponse => "QueryResponse"@,
        MessageType::SingleValueResponse => "SingleValueResponse"@,
        MessageType::Count => "Count"@,
        MessageType::Update => "Update"@,
        MessageType::UpdateResponse => "UpdateResponse"@,
        MessageType::Delete => "Delete"@,
        MessageType::DeleteResult => "DeleteResult"@,
        MessageType::DeleteForUsecase => "DeleteForUsecase"@,
        MessageType::Drop => "Drop"@,
        MessageType::DropResult => "DropResult"@,
        MessageType::EndOfCommunication => "EndOfCommunication"@,
        MessageType::CloseCommunication => "CloseCommunication"@,
        MessageType::InsertOpe => "InsertOpe"@,
        MessageType::CountResponse => "CountResponse"@,
    }
}

impl MessageType {
    /// The name of this message type.
    pub fn name(self) -> (r: String)
        ensures
            r@ == spec_type_name(self),
    {
        match self {
            MessageType::Setup => <String as vstd::string::StringExecFns>::from_str("Setup"),
            MessageType::Authentification => <String as vstd::string::StringExecFns>::from_str(
                "Authentification",
            ),
            MessageType::Insert => <String as vstd::string::StringExecFns>::from_str("Insert"),
            MessageType::InsertResponse => <String as vstd::string::StringExecFns>::from_str(
                "InsertResponse",
            ),
            MessageType::Query => <String as vstd::string::StringExecFns>::from_str("Query"),
            MessageType::QueryResponse => <String as vstd::string::StringExecFns>::from_str(
                "QueryResponse",
            ),
            MessageType::SingleValueResponse => <String as vstd::string::StringExecFns>::from_str(
                "SingleValueResponse",
            ),
            MessageType::Count => <String as vstd::string::StringExecFns>::from_str("Count"),
            MessageType::Update => <String as vstd::string::StringExecFns>::from_str("Update"),
            MessageType::UpdateResponse => <String as vstd::string::StringExecFns>::from_str(
                "UpdateResponse",
            ),
            MessageType::Delete => <String as vstd::string::StringExecFns>::from_str("Delete"),
            MessageType::DeleteResult => <String as vstd::string::StringExecFns>::from_str(
                "DeleteResult",
            ),
            MessageType::DeleteForUsecase => <String as vstd::string::StringExecFns>::from_str(
                "DeleteForUsecase",
            ),
            MessageType::Drop => <String as vstd::string::StringExecFns>::from_str("Drop"),
            MessageType::DropResult => <String as vstd::string::StringExecFns>::from_str(
                "DropResult",
            ),
            MessageType::EndOfCommunication => <String as vstd::string::StringExecFns>::from_str(
                "EndOfCommunication",
            ),
            MessageType::CloseCommunication => <String as vstd::string::StringExecFns>::from_str(
                "CloseCommunication",
            ),
            MessageType::InsertOpe => <String as vstd::string::StringExecFns>::from_str(
                "InsertOpe",
            ),
            MessageType::CountResponse => <String as vstd::string::StringExecFns>::from_str(
                "CountResponse",
            ),
        }
    }

    /// Reads a name back into a message type. The accepted set is the
    /// canonical table's: the names of the extended variants and of
    /// `DropResult` are not part of it, and read as errors.
    pub fn from_name(name: &String) -> (r: Result<MessageType, MessageTypeError>)
        ensures
            (r matches Ok(t) ==> name@ == spec_type_name(t) && !(t is DropResult) && !(
            t is InsertOpe) && !(t is CountResponse)),
            r is Err ==> name@ != "Setup"@ && name@ != "Authentification"@ && name@ != "Insert"@
                && name@ != "InsertResponse"@ && name@ != "Query"@ && name@ != "QueryResponse"@
                && name@ != "SingleValueResponse"@ && name@ != "Count"@ && name@ != "Update"@
                && name@ != "UpdateResponse"@ && name@ != "Delete"@ && name@ != "DeleteResult"@
                && name@ != "DeleteForUsecase"@ && name@ != "Drop"@ && name@
                != "EndOfCommunication"@ && name@ != "CloseCommunication"@,
    {
        if crate::keys::string_eq(name, &<String as vstd::string::StringExecFns>::from_str(
            "Setup",
        )) {
            return Ok(MessageType::Setup);
        }
        if crate::keys::string_eq(name, &<String as vstd::string::StringExecFns>::from_str(
            "Authentification",
        )) {
            return Ok(MessageType::Authentification);
        }
        if crate::keys::string_eq(name, &<String as vstd::string::StringExecFns>::from_str(
            "Insert",
        )) {
            return Ok(MessageType::Insert);
        }
        if crate::keys::string_eq(name, &<String as vstd::string::StringExecFns>::from_str(
            "InsertResponse",
        )) {
            return Ok(MessageType::InsertResponse);
        }
        if crate::keys::string_eq(name, &<String as vstd::string::StringExecFns>::from_str(
            "Query",
        )) {
            return Ok(MessageType::Query);
        }
        if crate::keys::string_eq(name, &<String as vstd::string::StringExecFns>::from_str(
            "QueryResponse",
        )) {
            return Ok(MessageType::QueryResponse);
        }
        if crate::keys::string_eq(name, &<String as vstd::string::StringExecFns>::from_str(
            "SingleValueResponse",
        )) {
            return Ok(MessageType::SingleValueResponse);
        }
        if crate::keys::string_eq(name, &<String as vstd::string::StringExecFns>::from_str(
            "Count",
        )) {
            return Ok(MessageType::Count);
        }
        if crate::keys::string_eq(name, &<String as vstd::string::StringExecFns>::from_str(
            "Update",
        )) {
            return Ok(MessageType::Update);
        }
        if crate::keys::string_eq(name, &<String as vstd::string::StringExecFns>::from_str(
            "UpdateResponse",
        )) {
            return Ok(MessageType::UpdateResponse);
        }
        if crate::keys::string_eq(name, &<String as vstd::string::StringExecFns>::from_str(
            "Delete",
        )) {
            return Ok(MessageType::Delete);
        }
        if crate::keys::string_eq(name, &<String as vstd::string::StringExecFns>::from_str(
            "DeleteResult",
        )) {
            return Ok(MessageType::DeleteResult);
        }
        if crate::keys::string_eq(name, &<String as vstd::string::StringExecFns>::from_str(
            "DeleteForUsecase",
        )) {
            return Ok(MessageType::DeleteForUsecase);
        }
        if crate::keys::string_eq(name, &<String as vstd::string::StringExecFns>::from_str(
            "Drop",
        )) {
            return Ok(MessageType::Drop);
        }
        if crate::keys::string_eq(name, &<String as vstd::string::StringExecFns>::from_str(
            "EndOfCommunication",
        )) {
            return Ok(MessageType::EndOfCommunication);
        }
        if crate::keys::string_eq(name, &<String as vstd::string::StringExecFns>::from_str(
            "CloseCommunication",
        )) {
            return Ok(MessageType::CloseCommunication);
        }
        Err(MessageTypeError {})
    }
}

} // verus!
