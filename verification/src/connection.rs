//! One connection, from key exchange to close.
//!
//! A connection is a small machine. The caller does the reading and writing
//! and reports what happened; the machine says what to do next. Public
//! values and the request travel in frames, as the reply does. A connection
//! serves one request and closes.

use crate::framing::{frame, framed, zero_frame};
use crate::json::json_string_array;
use crate::key_exchange::{public_key_bytes, shared_secret_bytes, DHKeyExchange};
use crate::protocol::{
    acknowledgement, answers, answers_without_store, command_of, parse_command, respond,
    respond_without_store, Command, CommandModel, Reply,
};
use crate::store::SecureStore;
use vstd::prelude::*;

verus! {

/// Where a connection stands.
#[derive(Clone, Copy, PartialEq, Eq, Structural, Debug)]
pub enum ConnectionState {
    /// The public values are being exchanged.
    AwaitingHandshake,
    /// The session key is known and the request is awaited.
    AwaitingCommand,
    /// A command was read and waits for the store.
    Dispatching,
    /// The reply is on its way.
    Responding,
    /// Nothing more happens.
    Closed,
}

/// What the caller reports.
pub enum Event {
    /// The bytes of the last `Send` were written.
    Sent,
    /// The peer's public value was read.
    PeerKey(Vec<u8>),
    /// The request was read.
    Request(Vec<u8>),
    /// Reading or writing failed.
    Failed,
}

/// What the caller is to do next.
pub enum Action {
    /// Write these bytes, then report `Sent`.
    Send(Vec<u8>),
    /// Read one frame and report its payload as `PeerKey`.
    ReadPeerKey,
    /// Read one frame and report its payload as `Request`.
    ReadCommand,
    /// Get hold of the store and call `dispatch`, or `dispatch_without_store`
    /// where it cannot be had.
    Dispatch,
    /// Shut the connection down.
    Close,
}

/// A connection as a mathematical value.
pub ghost struct ConnectionModel {
    /// Where the connection stands.
    pub state: ConnectionState,
    /// The private exponent of this side.
    pub private: nat,
    /// The key of the session; empty until the handshake is done, and again
    /// once the reply is sealed.
    pub session_key: Seq<u8>,
    /// The command that was read; none that is known until one was.
    pub command: CommandModel,
}

/// The state of one connection.
pub struct Connection {
    state: ConnectionState,
    exchange: DHKeyExchange,
    session_key: Vec<u8>,
    command: Command,
}

impl View for Connection {
    type V = ConnectionModel;

    closed spec fn view(&self) -> ConnectionModel {
        ConnectionModel {
            state: self.state,
            private: self.exchange.private_value(),
            session_key: self.session_key@,
            command: self.command@,
        }
    }
}

/// A connection that has come to its end: closed, and without its session
/// key.
pub open spec fn closed(before: ConnectionModel) -> ConnectionModel {
    ConnectionModel {
        state: ConnectionState::Closed,
        session_key: Seq::empty(),
        command: CommandModel::Invalid,
        ..before
    }
}

/// The first thing to send: the public value of this side in a frame.
pub open spec fn greeting(private: nat) -> Seq<u8> {
    framed(public_key_bytes(private))
}

/// Whether `after` and `action` are what `event` leads to from `before`.
///
/// - While the handshake is awaited, `Sent` asks for the peer's public value,
///   and that value settles the session key and asks for the request.
/// - While the request is awaited, a request that spells no known command is
///   answered with the acknowledgement at once; any other waits for the
///   store.
/// - While the reply is on its way, `Sent` ends the connection.
/// - Everything else, a failure above all, ends the connection.
///
/// The session key is let go as soon as the reply is settled.
pub open spec fn leads_to(
    before: ConnectionModel,
    event: Event,
    after: ConnectionModel,
    action: Action,
) -> bool {
    match (before.state, event) {
        (ConnectionState::AwaitingHandshake, Event::Sent) => {
            &&& after == before
            &&& action is ReadPeerKey
        },
        (ConnectionState::AwaitingHandshake, Event::PeerKey(peer)) => {
            &&& after == ConnectionModel {
                state: ConnectionState::AwaitingCommand,
                session_key: shared_secret_bytes(before.private, peer@),
                ..before
            }
            &&& action is ReadCommand
        },
        (ConnectionState::AwaitingCommand, Event::Request(request)) => {
            let command = command_of(json_string_array(request@));
            if command is Invalid {
                &&& after == ConnectionModel {
                    state: ConnectionState::Responding,
                    session_key: Seq::empty(),
                    ..before
                }
                &&& action matches Action::Send(bytes) && bytes@ == acknowledgement()
            } else {
                &&& after == ConnectionModel {
                    state: ConnectionState::Dispatching,
                    command,
                    ..before
                }
                &&& action is Dispatch
            }
        },
        (ConnectionState::Responding, Event::Sent) => after == closed(before) && action is Close,
        _ => after == closed(before) && action is Close,
    }
}

/// A connection serves one request: once closed it stays closed, whatever is
/// reported, and nothing more is sent.
pub proof fn lemma_closed_stays_closed(
    before: ConnectionModel,
    event: Event,
    after: ConnectionModel,
    action: Action,
)
    requires
        before.state == ConnectionState::Closed,
        leads_to(before, event, after, action),
    ensures
        after == closed(before),
        action is Close,
{
}

/// A failure ends the connection in every state, without a reply, and the
/// session key is gone.
pub proof fn lemma_failure_closes(before: ConnectionModel, after: ConnectionModel, action: Action)
    requires
        leads_to(before, Event::Failed, after, action),
    ensures
        after.state == ConnectionState::Closed,
        after.session_key.len() == 0,
        action is Close,
{
}

impl Connection {
    /// A connection that awaits the handshake, and the greeting to send.
    pub fn open(exchange: DHKeyExchange) -> (opened: (Connection, Vec<u8>))
        ensures
            opened.0@ == (ConnectionModel {
                state: ConnectionState::AwaitingHandshake,
                private: exchange.private_value(),
                session_key: Seq::<u8>::empty(),
                command: CommandModel::Invalid,
            }),
            opened.1@ == greeting(exchange.private_value()),
    {
        let public_key = exchange.get_public_key();
        let bytes = match frame(public_key.as_slice()) {
            Some(bytes) => bytes,
            None => Vec::new(),
        };
        (
            Connection {
                state: ConnectionState::AwaitingHandshake,
                exchange,
                session_key: Vec::new(),
                command: Command::Invalid,
            },
            bytes,
        )
    }

    /// Where the connection stands.
    pub fn state(&self) -> (state: ConnectionState)
        ensures
            state == self@.state,
    {
        self.state
    }

    /// Takes in what the caller reports and says what to do next.
    pub fn step(&mut self, event: Event) -> (action: Action)
        ensures
            leads_to(old(self)@, event, final(self)@, action),
    {
        match (self.state, event) {
            (ConnectionState::AwaitingHandshake, Event::Sent) => Action::ReadPeerKey,
            (ConnectionState::AwaitingHandshake, Event::PeerKey(peer)) => {
                self.session_key = self.exchange.compute_shared_secret(peer.as_slice());
                self.state = ConnectionState::AwaitingCommand;
                Action::ReadCommand
            },
            (ConnectionState::AwaitingCommand, Event::Request(request)) => {
                let command = parse_command(request.as_slice());
                match command {
                    Command::Invalid => {
                        self.discard_session_key();
                        self.state = ConnectionState::Responding;
                        let bytes = zero_frame();
                        Action::Send(bytes)
                    },
                    _ => {
                        self.command = command;
                        self.state = ConnectionState::Dispatching;
                        Action::Dispatch
                    },
                }
            },
            _ => {
                self.close();
                Action::Close
            },
        }
    }

    /// Wipes the session key and lets it go.
    fn discard_session_key(&mut self)
        ensures
            final(self)@ == (ConnectionModel { session_key: Seq::empty(), ..old(self)@ }),
    {
        let mut i: usize = 0;
        while i < self.session_key.len()
            invariant
                self.state == old(self).state,
                self.exchange == old(self).exchange,
                self.command == old(self).command,
            decreases self.session_key@.len() - i,
        {
            self.session_key[i] = 0;
            i += 1;
        }
        self.session_key = Vec::new();
    }

    /// Ends the connection.
    fn close(&mut self)
        ensures
            final(self)@ == closed(old(self)@),
    {
        self.discard_session_key();
        self.command = Command::Invalid;
        self.state = ConnectionState::Closed;
    }

    /// Carries out the command that waits for the store and gives the reply
    /// to send; the session key has then done its work and is let go. Where
    /// no command waits the connection is closed and there is no reply.
    pub fn dispatch(&mut self, store: &mut SecureStore) -> (reply: Option<Reply>)
        ensures
            final(store).page_size() == old(store).page_size(),
            match reply {
                Some(r) => {
                    &&& old(self)@.state == ConnectionState::Dispatching
                    &&& final(self)@ == ConnectionModel {
                        state: ConnectionState::Responding,
                        session_key: Seq::empty(),
                        command: CommandModel::Invalid,
                        ..old(self)@
                    }
                    &&& answers(
                        old(store)@,
                        final(store)@,
                        old(store).page_size(),
                        old(self)@.session_key,
                        old(self)@.command,
                        r,
                    )
                },
                None => {
                    &&& old(self)@.state != ConnectionState::Dispatching
                    &&& final(self)@ == closed(old(self)@)
                    &&& final(store)@ == old(store)@
                },
            },
    {
        match self.state {
            ConnectionState::Dispatching => {
                let mut command = Command::Invalid;
                core::mem::swap(&mut self.command, &mut command);
                self.state = ConnectionState::Responding;
                let reply = respond(store, self.session_key.as_slice(), command);
                self.discard_session_key();
                Some(reply)
            },
            _ => {
                self.close();
                None
            },
        }
    }

    /// Gives the reply to the command that waits where the store cannot be
    /// had. Where no command waits the connection is closed and there is no
    /// reply.
    pub fn dispatch_without_store(&mut self) -> (reply: Option<Reply>)
        ensures
            match reply {
                Some(r) => {
                    &&& old(self)@.state == ConnectionState::Dispatching
                    &&& final(self)@ == ConnectionModel {
                        state: ConnectionState::Responding,
                        session_key: Seq::empty(),
                        command: CommandModel::Invalid,
                        ..old(self)@
                    }
                    &&& answers_without_store(old(self)@.session_key, old(self)@.command, r)
                },
                None => {
                    &&& old(self)@.state != ConnectionState::Dispatching
                    &&& final(self)@ == closed(old(self)@)
                },
            },
    {
        match self.state {
            ConnectionState::Dispatching => {
                let mut command = Command::Invalid;
                core::mem::swap(&mut self.command, &mut command);
                self.state = ConnectionState::Responding;
                let reply = respond_without_store(self.session_key.as_slice(), command);
                self.discard_session_key();
                Some(reply)
            },
            _ => {
                self.close();
                None
            },
        }
    }
}

} // verus!
