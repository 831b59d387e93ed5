//! The per-connection session: the dispatcher that turns one inbound
//! message into the reply to enqueue for the writer task and the command
//! that tells the read loop whether to go on.
//!
//! `EndOfCommunication` travels from the client; `CloseCommunication` is
//! the internal sentinel the dispatcher enqueues so the writer task shuts
//! the write half down.

use vstd::prelude::*;
use crate::message::{Message, MessageV, ClientAuthentication, ClientSetupSecureConnection};
use crate::store::{
    Datastore, spec_insert_map, spec_query_response, spec_list_at, spec_index_list,
    spec_valid_names,
};
use crate::keys::{spec_valid_name, spec_data_key, spec_usecase_key, spec_keys_key};

verus! {

/// What the read loop does after one message: go on, or stop.
#[derive(Debug, Clone, Copy, PartialEq, Eq, Structural)]
pub enum Command {
    Continue,
    Exit,
}

/// Accepts the secure-session parameters. Authentication is an
/// unimplemented extension point: every setup is taken as it stands.
pub fn parse_client_setup(secure_connection_message: ClientSetupSecureConnection) -> (r: Command)
    ensures
        r == Command::Continue,
{
    let _ = secure_connection_message;
    Command::Continue
}

/// Accepts any credentials. Authentication is an unimplemented
/// extension point: nothing is validated.
pub fn parse_authentification(authentification: ClientAuthentication) -> (r: Command)
    ensures
        r == Command::Continue,
{
    let _ = authentification;
    Command::Continue
}

/// Hands the writer task its shutdown sentinel and stops the read loop.
pub fn end_communication() -> (r: (Option<Message>, Command))
    ensures
        r.0 matches Some(m) && m@ == MessageV::CloseCommunication,
        r.1 == Command::Exit,
{
    (Some(Message::CloseCommunication), Command::Exit)
}

/// Dispatches one inbound message against the store: the reply to
/// enqueue, if one is owed, and whether the read loop goes on.
///
/// A response-only variant arriving inbound cannot occur in a lawful
/// conversation and aborts the connection. `DeleteForUsecase` and
/// dropping a whole collection are unfinished extension points: they are
/// acknowledged with no reply and a failure result respectively.
pub fn parse_message(message: Message, db: &mut Datastore) -> (r: (Option<Message>, Command))
    requires
        old(db).wf(),
    ensures
        final(db).wf(),
        (message@ matches MessageV::ClientSetup(_) ==> r == (
            None::<Message>,
            Command::Continue,
        ) && final(db)@ == old(db)@),
        (message@ matches MessageV::ClientAuthentification(_) ==> r == (
            None::<Message>,
            Command::Continue,
        ) && final(db)@ == old(db)@),
        (message@ matches MessageV::Insert(i) ==> r.1 == Command::Continue && (match r.0 {
            Some(reply) => reply@ matches MessageV::InsertResponse { inserted_id }
                && spec_valid_name(inserted_id) && !old(db)@.contains_key(
                spec_data_key(i.collection, inserted_id),
            ) && final(db)@ == spec_insert_map(old(db)@, i, inserted_id),
            None => final(db)@ == old(db)@,
        }) && (!(spec_valid_name(i.collection) && spec_valid_names(i.usecases)) ==> r.0 is None)),
        (message@ matches MessageV::InsertOpe(i) ==> r.1 == Command::Continue && (match r.0 {
            Some(reply) => reply@ matches MessageV::InsertResponse { inserted_id }
                && spec_valid_name(inserted_id) && !old(db)@.contains_key(
                spec_data_key(i.collection, inserted_id),
            ) && final(db)@ == spec_insert_map(old(db)@, i, inserted_id),
            None => final(db)@ == old(db)@,
        }) && (!(spec_valid_name(i.collection) && spec_valid_names(i.usecases)) ==> r.0 is None)),
        (message@ matches MessageV::Query(q) ==> r.1 == Command::Continue && final(db)@ == old(
            db,
        )@ && (r.0 matches Some(reply) && reply@ == spec_query_response(old(db)@, q))),
        (message@ matches MessageV::Count(s) ==> r.1 == Command::Continue && final(db)@ == old(
            db,
        )@ && (r.0 matches Some(reply) && (match s {
            crate::message::CountSubjectV::Collection(c) => reply@ == MessageV::CountResponse(
                spec_list_at(old(db)@, spec_keys_key(c)).len() as u32,
            ),
            crate::message::CountSubjectV::Usecase { collection, usecase } => reply@
                == MessageV::CountResponse(
                spec_index_list(old(db)@, collection, usecase).len() as u32,
            ),
        }))),
        (message@ matches MessageV::Update(u) ==> r.1 == Command::Continue && (
        if old(db)@.contains_key(spec_data_key(u.collection, u.id)) {
            final(db)@ == old(db)@.insert(spec_data_key(u.collection, u.id), u.new_value) && (
            r.0 matches Some(reply) && reply@ == (MessageV::UpdateResponse {
                status: crate::message::UpdateStatus::Success,
            }))
        } else {
            final(db)@ == old(db)@ && (r.0 matches Some(reply) && reply@
                == (MessageV::UpdateResponse {
                status: crate::message::UpdateStatus::KeyNotFound,
            }))
        })),
        (message@ matches MessageV::Delete(d) ==> r.1 == Command::Continue && final(db)@ == old(
            db,
        )@.remove(spec_data_key(d.collection, d.id)) && (r.0 matches Some(reply) && reply@
            == MessageV::DeleteResult(true))),
        (message@ matches MessageV::Drop(s) ==> r.1 == Command::Continue && (match s {
            crate::message::DropSubjectV::Usecase { collection, usecase } => final(db)@ == old(
                db,
            )@.remove(spec_usecase_key(collection, usecase)) && (r.0 matches Some(reply)
                && reply@ == MessageV::DropResult(true)),
            crate::message::DropSubjectV::Collection(_) => final(db)@ == old(db)@ && (
            r.0 matches Some(reply) && reply@ == MessageV::DropResult(false)),
        })),
        (message@ matches MessageV::DeleteForUsecase { .. } ==> r == (
            None::<Message>,
            Command::Continue,
        ) && final(db)@ == old(db)@),
        (message@ matches MessageV::EndOfCommunication ==> (r.0 matches Some(reply) && reply@
            == MessageV::CloseCommunication) && r.1 == Command::Exit && final(db)@ == old(db)@),
        ((message@ matches MessageV::InsertResponse { .. } || message@
            matches MessageV::QueryResponse { .. } || message@
            matches MessageV::SingleValueResponse { .. } || message@
            matches MessageV::CountResponse(_) || message@ matches MessageV::UpdateResponse { .. }
            || message@ matches MessageV::DeleteResult(_) || message@
            matches MessageV::DropResult(_) || message@ matches MessageV::CloseCommunication) ==> r
            == (None::<Message>, Command::Exit) && final(db)@ == old(db)@),
{
    match message {
        Message::ClientSetup(param) => {
            let c = parse_client_setup(param);
            (None, c)
        }
        Message::ClientAuthentification(param) => {
            let c = parse_authentification(param);
            (None, c)
        }
        Message::Insert(param) => {
            match db.insert_new(&param) {
                Some(inserted_id) => (
                    Some(Message::InsertResponse { inserted_id }),
                    Command::Continue,
                ),
                None => (None, Command::Continue),
            }
        }
        Message::InsertOpe(param) => {
            match db.insert_new(&param) {
                Some(inserted_id) => (
                    Some(Message::InsertResponse { inserted_id }),
                    Command::Continue,
                ),
                None => (None, Command::Continue),
            }
        }
        Message::Query(param) => {
            let reply = db.handle_query(&param);
            (Some(reply), Command::Continue)
        }
        Message::Count(param) => {
            let n = db.count(&param);
            (Some(Message::CountResponse(n)), Command::Continue)
        }
        Message::Update(param) => {
            let status = db.update(&param);
            (Some(Message::UpdateResponse { status }), Command::Continue)
        }
        Message::Delete(param) => {
            let ok = db.delete(&param);
            (Some(Message::DeleteResult(ok)), Command::Continue)
        }
        Message::Drop(param) => {
            let ok = db.drop_subject(&param);
            (Some(Message::DropResult(ok)), Command::Continue)
        }
        Message::DeleteForUsecase { collection, id } => {
            let _ = collection;
            let _ = id;
            (None, Command::Continue)
        }
        Message::EndOfCommunication => end_communication(),
        Message::InsertResponse { .. } => (None, Command::Exit),
        Message::QueryResponse { .. } => (None, Command::Exit),
        Message::SingleValueResponse { .. } => (None, Command::Exit),
        Message::CountResponse(_) => (None, Command::Exit),
        Message::UpdateResponse { .. } => (None, Command::Exit),
        Message::DeleteResult(_) => (None, Command::Exit),
        Message::DropResult(_) => (None, Command::Exit),
        Message::CloseCommunication => (None, Command::Exit),
    }
}

} // verus!
