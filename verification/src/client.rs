//! The session of one connection: what it makes of a message from its client,
//! from a room or from the coordinator.
//!
//! A session reads nothing and writes nothing itself. It is told what came in
//! and says what is to be asked, sent or written.

use crate::coordinator::CoordinatorRequest;
use crate::message::{
    MessageFromClient, MessageFromClientView, MessageFromServer, MessageFromServerView, Username,
};
use crate::registry::{CoordinatorResponse, RequestView, RoomId};
use crate::room::{Client, ClientView, RoomMsg, RoomMsgView, SessionId};
use vstd::prelude::*;

verus! {

/// What a session finds in its mailbox.
#[derive(Debug)]
pub enum ClientMsg {
    /// The reader has found the connection closed or silent for too long.
    ClientDropped,
    MessageFromClient(MessageFromClient),
    RoomMessage(MessageFromServer),
}

pub enum ClientMsgView {
    ClientDropped,
    MessageFromClient(MessageFromClientView),
    RoomMessage(MessageFromServerView),
}

impl View for ClientMsg {
    type V = ClientMsgView;

    open spec fn view(&self) -> ClientMsgView {
        match self {
            ClientMsg::ClientDropped => ClientMsgView::ClientDropped,
            ClientMsg::MessageFromClient(message) => ClientMsgView::MessageFromClient(message@),
            ClientMsg::RoomMessage(message) => ClientMsgView::RoomMessage(message@),
        }
    }
}

/// What a client must not do. Any of these ends its connection, and only its.
#[derive(Debug, Clone, Copy, PartialEq, Eq, Structural)]
pub enum ProtocolViolation {
    /// A room was asked for before the server was joined.
    NotJoined,
    /// A room was asked for from within a room.
    AlreadyInRoom,
    /// A room was to be left from outside any room.
    NotInRoom,
    /// A move was sent from outside any room.
    ActionOutsideRoom,
    /// The coordinator gave an answer that does not fit the question.
    UnexpectedReply,
}

/// What a session asks the runtime to do next.
#[derive(Debug)]
pub enum ClientAction {
    /// Ask the coordinator, wait for the answer and hand both to `on_reply`.
    Ask(CoordinatorRequest),
    /// Put `message` in the mailbox of `room`.
    ToRoom { room: RoomId, message: RoomMsg },
    /// Write `message` to the connection.
    Write(MessageFromServer),
    /// Go on with the next message.
    Nothing,
    /// End the session. Where `leave` is set the coordinator is sent
    /// `LeaveServer` first, so that the session is struck from its table.
    Stop { leave: bool },
    /// End the session because of what the client did, with the same cleanup.
    Fail { violation: ProtocolViolation, leave: bool },
}

pub enum ClientActionView {
    Ask(RequestView),
    ToRoom { room: RoomId, message: RoomMsgView },
    Write(MessageFromServerView),
    Nothing,
    Stop { leave: bool },
    Fail { violation: ProtocolViolation, leave: bool },
}

impl View for ClientAction {
    type V = ClientActionView;

    open spec fn view(&self) -> ClientActionView {
        match self {
            ClientAction::Ask(request) => ClientActionView::Ask(request@),
            ClientAction::ToRoom { room, message } => ClientActionView::ToRoom {
                room: *room,
                message: message@,
            },
            ClientAction::Write(message) => ClientActionView::Write(message@),
            ClientAction::Nothing => ClientActionView::Nothing,
            ClientAction::Stop { leave } => ClientActionView::Stop { leave: *leave },
            ClientAction::Fail { violation, leave } => ClientActionView::Fail {
                violation: *violation,
                leave: *leave,
            },
        }
    }
}

/// What a session knows of itself.
pub struct ConnectionView {
    pub id: SessionId,
    /// The name under which the server was joined, if it was.
    pub username: Option<Seq<char>>,
    /// The room that the session is in, if any.
    pub current_room: Option<RoomId>,
}

/// A session and what it asks for.
pub struct Turn {
    pub state: ConnectionView,
    pub action: ClientActionView,
}

impl ConnectionView {
    pub open spec fn initial(id: SessionId) -> ConnectionView {
        ConnectionView { id, username: None, current_room: None }
    }

    /// A session that is in a room has joined the server.
    pub open spec fn wf(self) -> bool {
        self.current_room is Some ==> self.username is Some
    }

    pub open spec fn joined(self) -> bool {
        self.username is Some
    }

    /// The end of the session, with the cleanup that a joined session needs.
    pub open spec fn stop(self) -> Turn {
        Turn { state: self, action: ClientActionView::Stop { leave: self.joined() } }
    }

    /// The end of the session for `violation`, with the same cleanup.
    pub open spec fn fail(self, violation: ProtocolViolation) -> Turn {
        Turn { state: self, action: ClientActionView::Fail { violation, leave: self.joined() } }
    }

    /// Why the session cannot ask for a room, if it cannot.
    pub open spec fn no_room_for(self) -> Option<ProtocolViolation> {
        if self.username is None {
            Some(ProtocolViolation::NotJoined)
        } else if self.current_room is Some {
            Some(ProtocolViolation::AlreadyInRoom)
        } else {
            None
        }
    }

    /// What the session makes of a message from its client.
    pub open spec fn on_client(self, message: MessageFromClientView) -> Turn {
        match message {
            MessageFromClientView::JoinServer(username) => Turn {
                state: self,
                action: ClientActionView::Ask(RequestView::JoinServer(username)),
            },
            MessageFromClientView::LeaveServer => self.stop(),
            MessageFromClientView::CreateRoom(name) => match self.no_room_for() {
                Some(violation) => self.fail(violation),
                None => Turn {
                    state: self,
                    action: ClientActionView::Ask(RequestView::CreateRoom(name, self.id)),
                },
            },
            MessageFromClientView::JoinRoom(name) => match self.no_room_for() {
                Some(violation) => self.fail(violation),
                None => Turn {
                    state: self,
                    action: ClientActionView::Ask(RequestView::JoinRoom(name, self.id)),
                },
            },
            MessageFromClientView::LeaveRoom => if self.current_room is Some {
                Turn {
                    state: ConnectionView { current_room: None, ..self },
                    action: ClientActionView::Ask(RequestView::LeaveRoom(self.id)),
                }
            } else {
                self.fail(ProtocolViolation::NotInRoom)
            },
            MessageFromClientView::GameAction(action) => if self.current_room is Some
                && self.username is Some {
                Turn {
                    state: self,
                    action: ClientActionView::ToRoom {
                        room: self.current_room->0,
                        message: RoomMsgView::Action(
                            ClientView { username: self.username->0, process: self.id },
                            action,
                        ),
                    },
                }
            } else {
                self.fail(ProtocolViolation::ActionOutsideRoom)
            },
        }
    }

    /// What the session makes of a message from its mailbox.
    pub open spec fn on_message(self, message: ClientMsgView) -> Turn {
        match message {
            ClientMsgView::ClientDropped => self.stop(),
            ClientMsgView::MessageFromClient(message) => self.on_client(message),
            ClientMsgView::RoomMessage(message) => Turn {
                state: self,
                action: ClientActionView::Write(message),
            },
        }
    }

    /// The session passes `message` on to its client and is otherwise as it was.
    pub open spec fn pass_on(self, message: MessageFromServerView) -> Turn {
        Turn { state: self, action: ClientActionView::Write(message) }
    }

    /// What the session makes of the answer `response` to its `request`.
    pub open spec fn on_reply(self, request: RequestView, response: CoordinatorResponse) -> Turn {
        match request {
            RequestView::JoinServer(username) => match response {
                CoordinatorResponse::ServerJoined => (ConnectionView {
                    username: Some(username),
                    current_room: None,
                    ..self
                }).pass_on(MessageFromServerView::ServerJoined),
                CoordinatorResponse::UsernameAlreadyTaken => self.pass_on(
                    MessageFromServerView::UsernameAlreadyTaken,
                ),
                _ => self.fail(ProtocolViolation::UnexpectedReply),
            },
            RequestView::CreateRoom(_, _) => match response {
                CoordinatorResponse::RoomCreated(room) => match self.no_room_for() {
                    Some(violation) => self.fail(violation),
                    None => (ConnectionView { current_room: Some(room), ..self }).pass_on(
                        MessageFromServerView::RoomCreated,
                    ),
                },
                CoordinatorResponse::RoomNameAlreadyTaken => self.pass_on(
                    MessageFromServerView::RoomNameAlreadyTaken,
                ),
                _ => self.fail(ProtocolViolation::UnexpectedReply),
            },
            RequestView::JoinRoom(_, _) => match response {
                CoordinatorResponse::RoomJoined(room) => match self.no_room_for() {
                    Some(violation) => self.fail(violation),
                    None => (ConnectionView { current_room: Some(room), ..self }).pass_on(
                        MessageFromServerView::RoomJoined,
                    ),
                },
                CoordinatorResponse::RoomFull => self.pass_on(MessageFromServerView::RoomFull),
                CoordinatorResponse::RoomDoesNotExist => self.pass_on(
                    MessageFromServerView::RoomDoesNotExist,
                ),
                _ => self.fail(ProtocolViolation::UnexpectedReply),
            },
            RequestView::LeaveRoom(_) => Turn { state: self, action: ClientActionView::Nothing },
            RequestView::LeaveServer => Turn {
                state: self,
                action: ClientActionView::Stop { leave: false },
            },
        }
    }
}

/// The state of one session.
#[derive(Debug)]
pub struct ClientProcess {
    id: SessionId,
    username: Option<Username>,
    current_room: Option<RoomId>,
}

pub open spec fn name_view(name: Option<Username>) -> Option<Seq<char>> {
    match name {
        Some(username) => Some(username@),
        None => None,
    }
}

impl View for ClientProcess {
    type V = ConnectionView;

    closed spec fn view(&self) -> ConnectionView {
        ConnectionView {
            id: self.id,
            username: name_view(self.username),
            current_room: self.current_room,
        }
    }
}

impl ClientProcess {
    pub open spec fn wf(&self) -> bool {
        self@.wf()
    }

    /// The session of the connection `id`, before anything came in.
    pub fn new(id: SessionId) -> (session: ClientProcess)
        ensures
            session@ == ConnectionView::initial(id),
            session.wf(),
    {
        ClientProcess { id, username: None, current_room: None }
    }

    /// Whether the server has been joined.
    pub fn joined(&self) -> (joined: bool)
        ensures
            joined == self@.joined(),
    {
        self.username.is_some()
    }

    /// The room that the session is in, if any.
    pub fn current_room(&self) -> (room: Option<RoomId>)
        ensures
            room == self@.current_room,
    {
        self.current_room
    }

    fn stop(&self) -> (action: ClientAction)
        ensures
            action@ == self@.stop().action,
    {
        ClientAction::Stop { leave: self.username.is_some() }
    }

    fn fail(&self, violation: ProtocolViolation) -> (action: ClientAction)
        ensures
            action@ == self@.fail(violation).action,
    {
        ClientAction::Fail { violation, leave: self.username.is_some() }
    }

    fn no_room_for(&self) -> (violation: Option<ProtocolViolation>)
        ensures
            violation == self@.no_room_for(),
    {
        if self.username.is_none() {
            Some(ProtocolViolation::NotJoined)
        } else if self.current_room.is_some() {
            Some(ProtocolViolation::AlreadyInRoom)
        } else {
            None
        }
    }

    fn on_client(&mut self, message: MessageFromClient) -> (action: ClientAction)
        requires
            old(self).wf(),
        ensures
            final(self).wf(),
            final(self)@ == old(self)@.on_client(message@).state,
            action@ == old(self)@.on_client(message@).action,
    {
        match message {
            MessageFromClient::JoinServer(username) => ClientAction::Ask(
                CoordinatorRequest::JoinServer(username),
            ),
            MessageFromClient::LeaveServer => self.stop(),
            MessageFromClient::CreateRoom(name) => match self.no_room_for() {
                Some(violation) => self.fail(violation),
                None => ClientAction::Ask(CoordinatorRequest::CreateRoom(name, self.id)),
            },
            MessageFromClient::JoinRoom(name) => match self.no_room_for() {
                Some(violation) => self.fail(violation),
                None => ClientAction::Ask(CoordinatorRequest::JoinRoom(name, self.id)),
            },
            MessageFromClient::LeaveRoom => {
                if self.current_room.is_some() {
                    self.current_room = None;
                    ClientAction::Ask(CoordinatorRequest::LeaveRoom(self.id))
                } else {
                    self.fail(ProtocolViolation::NotInRoom)
                }
            },
            MessageFromClient::GameAction(action) => {
                match (&self.current_room, &self.username) {
                    (Some(room), Some(username)) => ClientAction::ToRoom {
                        room: *room,
                        message: RoomMsg::Action(Client::new(username.clone(), self.id), action),
                    },
                    _ => self.fail(ProtocolViolation::ActionOutsideRoom),
                }
            },
        }
    }

    /// Handle one message from the mailbox.
    pub fn handle(&mut self, message: ClientMsg) -> (action: ClientAction)
        requires
            old(self).wf(),
        ensures
            final(self).wf(),
            final(self)@ == old(self)@.on_message(message@).state,
            action@ == old(self)@.on_message(message@).action,
    {
        match message {
            ClientMsg::ClientDropped => self.stop(),
            ClientMsg::MessageFromClient(message) => self.on_client(message),
            ClientMsg::RoomMessage(message) => ClientAction::Write(message),
        }
    }

    /// Handle the answer `response` of the coordinator to `request`.
    pub fn on_reply(&mut self, request: &CoordinatorRequest, response: CoordinatorResponse) -> (action:
        ClientAction)
        requires
            old(self).wf(),
        ensures
            final(self).wf(),
            final(self)@ == old(self)@.on_reply(request@, response).state,
            action@ == old(self)@.on_reply(request@, response).action,
    {
        match request {
            CoordinatorRequest::JoinServer(username) => match response {
                CoordinatorResponse::ServerJoined => {
                    self.username = Some(username.clone());
                    self.current_room = None;
                    ClientAction::Write(MessageFromServer::ServerJoined)
                },
                CoordinatorResponse::UsernameAlreadyTaken => ClientAction::Write(
                    MessageFromServer::UsernameAlreadyTaken,
                ),
                _ => self.fail(ProtocolViolation::UnexpectedReply),
            },
            CoordinatorRequest::CreateRoom(_, _) => match response {
                CoordinatorResponse::RoomCreated(room) => match self.no_room_for() {
                    Some(violation) => self.fail(violation),
                    None => {
                        self.current_room = Some(room);
                        ClientAction::Write(MessageFromServer::RoomCreated)
                    },
                },
                CoordinatorResponse::RoomNameAlreadyTaken => ClientAction::Write(
                    MessageFromServer::RoomNameAlreadyTaken,
                ),
                _ => self.fail(ProtocolViolation::UnexpectedReply),
            },
            CoordinatorRequest::JoinRoom(_, _) => match response {
                CoordinatorResponse::RoomJoined(room) => match self.no_room_for() {
                    Some(violation) => self.fail(violation),
                    None => {
                        self.current_room = Some(room);
                        ClientAction::Write(MessageFromServer::RoomJoined)
                    },
                },
                CoordinatorResponse::RoomFull => ClientAction::Write(MessageFromServer::RoomFull),
                CoordinatorResponse::RoomDoesNotExist => ClientAction::Write(
                    MessageFromServer::RoomDoesNotExist,
                ),
                _ => self.fail(ProtocolViolation::UnexpectedReply),
            },
            CoordinatorRequest::LeaveRoom(_) => ClientAction::Nothing,
            CoordinatorRequest::LeaveServer => ClientAction::Stop { leave: false },
        }
    }
}

/// How long a connection may be silent before it counts as lost, in seconds.
pub const READ_TIMEOUT_SECS: u64 = 5 * 60;

/// What the reader of a connection has got from it.
#[derive(Debug)]
pub enum ReadEvent {
    /// The connection is closed.
    Closed,
    /// Nothing came within the time allowed, or reading failed.
    TimedOut,
    /// One frame came, and this is the message in it.
    Frame(MessageFromClient),
    /// One frame came, and there is no message in it.
    Garbled,
}

/// What the reader does next.
#[derive(Debug, Clone, Copy, PartialEq, Eq, Structural)]
pub enum ReaderFlow {
    /// Read the next frame.
    Continue,
    /// Stop reading.
    Stop,
    /// Give the connection up: what came in was no message.
    Abort,
}

/// What the reader hands to its session, and what it does next.
#[derive(Debug)]
pub struct ReaderStep {
    pub forward: Option<ClientMsg>,
    pub flow: ReaderFlow,
}

pub open spec fn forward_view(forward: Option<ClientMsg>) -> Option<ClientMsgView> {
    match forward {
        Some(message) => Some(message@),
        None => None,
    }
}

/// The reader of a connection: a lost connection is reported to the session
/// and ends the reading, a message is passed on, and `LeaveServer` is the last
/// one that is. A frame without a message is fatal.
pub fn reader_step(event: ReadEvent) -> (step: ReaderStep)
    ensures
        forward_view(step.forward) == match event {
            ReadEvent::Closed | ReadEvent::TimedOut => Some(ClientMsgView::ClientDropped),
            ReadEvent::Frame(message) => Some(ClientMsgView::MessageFromClient(message@)),
            ReadEvent::Garbled => None,
        },
        step.flow == match event {
            ReadEvent::Closed | ReadEvent::TimedOut => ReaderFlow::Stop,
            ReadEvent::Frame(message) => if message is LeaveServer {
                ReaderFlow::Stop
            } else {
                ReaderFlow::Continue
            },
            ReadEvent::Garbled => ReaderFlow::Abort,
        },
{
    match event {
        ReadEvent::Closed | ReadEvent::TimedOut => ReaderStep {
            forward: Some(ClientMsg::ClientDropped),
            flow: ReaderFlow::Stop,
        },
        ReadEvent::Frame(message) => {
            let flow = match &message {
                MessageFromClient::LeaveServer => ReaderFlow::Stop,
                _ => ReaderFlow::Continue,
            };
            ReaderStep { forward: Some(ClientMsg::MessageFromClient(message)), flow }
        },
        ReadEvent::Garbled => ReaderStep { forward: None, flow: ReaderFlow::Abort },
    }
}

} // verus!
