//! The registry that the coordinator keeps, as a mathematical model: the table
//! of sessions, the directory of rooms, and what each request makes of them.

use crate::room::{ClientView, RoomMsgView, SessionId};
use vstd::prelude::*;

verus! {

/// The handle of a room. The coordinator hands them out and never twice.
pub type RoomId = u64;

/// The tag under which the runtime reports that a session has died.
pub type LinkTag = i64;

/// One client that has joined the server.
pub struct SessionView {
    pub id: SessionId,
    pub tag: LinkTag,
    pub username: Seq<char>,
    pub room: Option<RoomId>,
}

/// One room of the directory.
pub struct EntryView {
    pub name: Seq<char>,
    pub room: RoomId,
    /// How many sessions are in the room.
    pub size: nat,
}

/// The answer to a request.
#[derive(Debug, Clone, Copy, PartialEq, Eq, Structural)]
pub enum CoordinatorResponse {
    ServerJoined,
    UsernameAlreadyTaken,
    ServerLeft,
    RoomJoined(RoomId),
    RoomFull,
    RoomDoesNotExist,
    RoomCreated(RoomId),
    RoomNameAlreadyTaken,
    RoomLeft,
}

/// A request that the coordinator cannot answer, because the session that sent
/// it is not in a state to ask. Nothing changes on such a request.
#[derive(Debug, Clone, Copy, PartialEq, Eq, Structural)]
pub enum CoordinatorError {
    /// A room was asked for by a session that has not joined the server.
    UnknownSession,
    /// A room was asked for by a session that is in a room.
    AlreadyInRoom,
    /// A session that is in no room asked to leave its room.
    NotInRoom,
    /// Every room handle has been handed out.
    OutOfRooms,
}

pub enum RequestView {
    JoinServer(Seq<char>),
    LeaveServer,
    JoinRoom(Seq<char>, SessionId),
    CreateRoom(Seq<char>, SessionId),
    LeaveRoom(SessionId),
}

pub enum CoordinatorMsgView {
    /// The session that was linked under the tag has died.
    Signal(LinkTag),
    /// `sender` asks; `link` is the tag under which it is watched if it joins.
    Request { sender: SessionId, link: LinkTag, data: RequestView },
}

/// What the coordinator asks the runtime to do.
pub enum EffectView {
    /// Start the room `room` under the name `name`.
    Spawn { room: RoomId, name: Seq<char> },
    /// Put `message` in the mailbox of `room`.
    ToRoom { room: RoomId, message: RoomMsgView },
    /// Answer the request of `to`.
    Reply { to: SessionId, response: CoordinatorResponse },
}

pub open spec fn reply(to: SessionId, response: CoordinatorResponse) -> Seq<EffectView> {
    seq![EffectView::Reply { to, response }]
}

/// How many of `sessions` are in `room`.
pub open spec fn occupants(sessions: Seq<SessionView>, room: RoomId) -> nat
    decreases sessions.len(),
{
    if sessions.len() == 0 {
        0
    } else {
        occupants(sessions.drop_last(), room) + if sessions.last().room == Some(room) {
            1nat
        } else {
            0nat
        }
    }
}

/// The registry of the coordinator.
pub struct CoordinatorView {
    /// The sessions, in the order in which they joined.
    pub sessions: Seq<SessionView>,
    /// The rooms, in the order in which they were created.
    pub rooms: Seq<EntryView>,
    /// The handle of the next room.
    pub next_room: RoomId,
    /// How many members a room takes, where the game sets a limit.
    pub max_client: Option<usize>,
}

/// A state and what is to be done on the way to it.
pub struct Outcome {
    pub state: CoordinatorView,
    pub effects: Seq<EffectView>,
}

impl CoordinatorView {
    pub open spec fn initial(max_client: Option<usize>) -> CoordinatorView {
        CoordinatorView { sessions: Seq::empty(), rooms: Seq::empty(), next_room: 0, max_client }
    }

    pub open spec fn has_session(self, id: SessionId) -> bool {
        exists|i: int| 0 <= i < self.sessions.len() && (#[trigger] self.sessions[i]).id == id
    }

    /// Where the session `id` stands. Meaningful where there is one.
    pub open spec fn session_index(self, id: SessionId) -> int {
        choose|i: int| 0 <= i < self.sessions.len() && (#[trigger] self.sessions[i]).id == id
    }

    pub open spec fn name_taken(self, username: Seq<char>) -> bool {
        exists|i: int|
            0 <= i < self.sessions.len() && (#[trigger] self.sessions[i]).username == username
    }

    /// Whether `i` is the first session that is linked under `tag`.
    pub open spec fn is_first_linked(self, tag: LinkTag, i: int) -> bool {
        &&& 0 <= i < self.sessions.len()
        &&& self.sessions[i].tag == tag
        &&& forall|j: int| 0 <= j < i ==> (#[trigger] self.sessions[j]).tag != tag
    }

    pub open spec fn is_linked(self, tag: LinkTag) -> bool {
        exists|i: int| 0 <= i < self.sessions.len() && (#[trigger] self.sessions[i]).tag == tag
    }

    /// The first session that is linked under `tag`. Meaningful where there is one.
    pub open spec fn first_linked(self, tag: LinkTag) -> int {
        choose|i: int| self.is_first_linked(tag, i)
    }

    pub open spec fn has_room(self, name: Seq<char>) -> bool {
        exists|k: int| 0 <= k < self.rooms.len() && (#[trigger] self.rooms[k]).name == name
    }

    /// Where the room called `name` stands. Meaningful where there is one.
    pub open spec fn room_index(self, name: Seq<char>) -> int {
        choose|k: int| 0 <= k < self.rooms.len() && (#[trigger] self.rooms[k]).name == name
    }

    pub open spec fn has_entry(self, room: RoomId) -> bool {
        exists|k: int| 0 <= k < self.rooms.len() && (#[trigger] self.rooms[k]).room == room
    }

    /// Where the room with the handle `room` stands. Meaningful where there is one.
    pub open spec fn entry_index(self, room: RoomId) -> int {
        choose|k: int| 0 <= k < self.rooms.len() && (#[trigger] self.rooms[k]).room == room
    }

    /// Whether the directory has the room `room` under the name `name`.
    pub open spec fn listed(self, name: Seq<char>, room: RoomId) -> bool {
        exists|k: int|
            0 <= k < self.rooms.len() && (#[trigger] self.rooms[k]).name == name
                && self.rooms[k].room == room
    }

    /// Whether the room at `k` takes nobody else.
    pub open spec fn is_full(self, k: int) -> bool {
        self.max_client matches Some(limit) && self.rooms[k].size >= limit
    }

    /// Whether a room may count `size` sessions: no more than the game allows,
    /// where it allows any.
    pub open spec fn within_limit(self, size: nat) -> bool {
        match self.max_client {
            Some(limit) => limit >= 1 ==> size <= limit,
            None => true,
        }
    }

    /// No session, link tag, name, room name or room handle stands twice; each
    /// room has at least one session in it, as many as its entry says and no
    /// more than the game allows; each session that is in a room is in a room
    /// of the directory.
    pub open spec fn wf(self) -> bool {
        &&& forall|i: int, j: int|
            0 <= i < j < self.sessions.len() ==> (#[trigger] self.sessions[i]).id != (
            #[trigger] self.sessions[j]).id
        &&& forall|i: int, j: int|
            0 <= i < j < self.sessions.len() ==> (#[trigger] self.sessions[i]).tag != (
            #[trigger] self.sessions[j]).tag
        &&& forall|i: int, j: int|
            0 <= i < j < self.sessions.len() ==> (#[trigger] self.sessions[i]).username != (
            #[trigger] self.sessions[j]).username
        &&& forall|k: int, l: int|
            0 <= k < l < self.rooms.len() ==> (#[trigger] self.rooms[k]).name != (
            #[trigger] self.rooms[l]).name
        &&& forall|k: int, l: int|
            0 <= k < l < self.rooms.len() ==> (#[trigger] self.rooms[k]).room != (
            #[trigger] self.rooms[l]).room
        &&& forall|k: int|
            0 <= k < self.rooms.len() ==> {
                &&& (#[trigger] self.rooms[k]).room < self.next_room
                &&& self.rooms[k].size >= 1
                &&& self.rooms[k].size == occupants(self.sessions, self.rooms[k].room)
                &&& self.within_limit(self.rooms[k].size)
            }
        &&& forall|i: int|
            0 <= i < self.sessions.len() && (#[trigger] self.sessions[i]).room is Some
                ==> self.has_entry(self.sessions[i].room->0)
    }

    /// The directory after one session went out of `room`: the entry counts one
    /// less, and goes when it counts nobody.
    pub open spec fn vacated(self, room: RoomId) -> Seq<EntryView> {
        if self.has_entry(room) {
            let k = self.entry_index(room);
            if self.rooms[k].size <= 1 {
                self.rooms.remove(k)
            } else {
                self.rooms.update(k, EntryView { size: (self.rooms[k].size - 1) as nat, ..self.rooms[k] })
            }
        } else {
            self.rooms
        }
    }

    /// The session at `i` is struck from the table, for whatever reason it went.
    /// If it was in a room, the room is told that it dropped and counts one less.
    pub open spec fn released(self, i: int) -> Outcome {
        let session = self.sessions[i];
        match session.room {
            Some(room) => Outcome {
                state: CoordinatorView {
                    sessions: self.sessions.remove(i),
                    rooms: self.vacated(room),
                    ..self
                },
                effects: seq![
                    EffectView::ToRoom { room, message: RoomMsgView::Drop(session.username) },
                ],
            },
            None => Outcome {
                state: CoordinatorView { sessions: self.sessions.remove(i), ..self },
                effects: Seq::empty(),
            },
        }
    }

    /// The session `id` is struck from the table if it stands there.
    pub open spec fn released_id(self, id: SessionId) -> Outcome {
        if self.has_session(id) {
            self.released(self.session_index(id))
        } else {
            Outcome { state: self, effects: Seq::empty() }
        }
    }

    /// `JoinServer`: a name that a session holds is refused. Else the sender is
    /// entered under that name and linked under `link`, in no room. A session
    /// under which the sender stood in the table already is struck first, and
    /// so is a session that is linked under `link`: a tag stands for one link,
    /// and the one it stood for is gone when it comes again.
    pub open spec fn join_server(self, sender: SessionId, link: LinkTag, username: Seq<char>) -> Outcome {
        if self.name_taken(username) {
            Outcome { state: self, effects: reply(sender, CoordinatorResponse::UsernameAlreadyTaken) }
        } else {
            let cleared = self.released_id(sender);
            let unlinked = cleared.state.signal(link);
            Outcome {
                state: CoordinatorView {
                    sessions: unlinked.state.sessions.push(
                        SessionView { id: sender, tag: link, username, room: None },
                    ),
                    ..unlinked.state
                },
                effects: cleared.effects + unlinked.effects + reply(
                    sender,
                    CoordinatorResponse::ServerJoined,
                ),
            }
        }
    }

    /// `LeaveServer`: the sender is struck from the table if it stands there,
    /// and answered either way.
    pub open spec fn leave_server(self, sender: SessionId) -> Outcome {
        let cleared = self.released_id(sender);
        Outcome {
            state: cleared.state,
            effects: cleared.effects + reply(sender, CoordinatorResponse::ServerLeft),
        }
    }

    /// A signal: the first session linked under `tag` is struck from the table.
    pub open spec fn signal(self, tag: LinkTag) -> Outcome {
        if self.is_linked(tag) {
            self.released(self.first_linked(tag))
        } else {
            Outcome { state: self, effects: Seq::empty() }
        }
    }

    /// Why the sender cannot be given a room, if it cannot.
    pub open spec fn not_admitted(self, sender: SessionId) -> Option<CoordinatorError> {
        if !self.has_session(sender) {
            Some(CoordinatorError::UnknownSession)
        } else if self.sessions[self.session_index(sender)].room is Some {
            Some(CoordinatorError::AlreadyInRoom)
        } else {
            None
        }
    }

    /// The session at `i` is in `room` from now on.
    pub open spec fn seated(self, i: int, room: RoomId) -> Seq<SessionView> {
        self.sessions.update(i, SessionView { room: Some(room), ..self.sessions[i] })
    }

    /// `CreateRoom`: a name that a room has is refused. Else the room is started
    /// under the next handle with the sender as its only member.
    pub open spec fn create_room(self, sender: SessionId, name: Seq<char>, client: SessionId) -> Result<
        Outcome,
        CoordinatorError,
    > {
        if self.has_room(name) {
            Ok(Outcome { state: self, effects: reply(sender, CoordinatorResponse::RoomNameAlreadyTaken) })
        } else if self.not_admitted(sender) is Some {
            Err(self.not_admitted(sender)->0)
        } else if self.next_room == u64::MAX {
            Err(CoordinatorError::OutOfRooms)
        } else {
            let i = self.session_index(sender);
            let room = self.next_room;
            let member = ClientView { username: self.sessions[i].username, process: client };
            Ok(
                Outcome {
                    state: CoordinatorView {
                        sessions: self.seated(i, room),
                        rooms: self.rooms.push(EntryView { name, room, size: 1 }),
                        next_room: (room + 1) as RoomId,
                        ..self
                    },
                    effects: seq![
                        EffectView::Spawn { room, name },
                        EffectView::ToRoom { room, message: RoomMsgView::JoinRoom(member) },
                        EffectView::Reply { to: sender, response: CoordinatorResponse::RoomCreated(room) },
                    ],
                },
            )
        }
    }

    /// `JoinRoom`: a name that no room has is refused, and so is a room that is
    /// full. Else the sender is in the room and the room counts one more.
    pub open spec fn join_room(self, sender: SessionId, name: Seq<char>, client: SessionId) -> Result<
        Outcome,
        CoordinatorError,
    > {
        if !self.has_room(name) {
            Ok(Outcome { state: self, effects: reply(sender, CoordinatorResponse::RoomDoesNotExist) })
        } else if self.is_full(self.room_index(name)) {
            Ok(Outcome { state: self, effects: reply(sender, CoordinatorResponse::RoomFull) })
        } else if self.not_admitted(sender) is Some {
            Err(self.not_admitted(sender)->0)
        } else {
            let i = self.session_index(sender);
            let k = self.room_index(name);
            let room = self.rooms[k].room;
            let member = ClientView { username: self.sessions[i].username, process: client };
            Ok(
                Outcome {
                    state: CoordinatorView {
                        sessions: self.seated(i, room),
                        rooms: self.rooms.update(
                            k,
                            EntryView { size: self.rooms[k].size + 1, ..self.rooms[k] },
                        ),
                        ..self
                    },
                    effects: seq![
                        EffectView::ToRoom { room, message: RoomMsgView::JoinRoom(member) },
                        EffectView::Reply { to: sender, response: CoordinatorResponse::RoomJoined(room) },
                    ],
                },
            )
        }
    }

    /// `LeaveRoom`: the sender is in no room any more, and its room counts one
    /// less.
    pub open spec fn leave_room(self, sender: SessionId, client: SessionId) -> Result<
        Outcome,
        CoordinatorError,
    > {
        if !self.has_session(sender) {
            Err(CoordinatorError::UnknownSession)
        } else if self.sessions[self.session_index(sender)].room is None {
            Err(CoordinatorError::NotInRoom)
        } else {
            let i = self.session_index(sender);
            let room = self.sessions[i].room->0;
            let member = ClientView { username: self.sessions[i].username, process: client };
            Ok(
                Outcome {
                    state: CoordinatorView {
                        sessions: self.sessions.update(
                            i,
                            SessionView { room: None, ..self.sessions[i] },
                        ),
                        rooms: self.vacated(room),
                        ..self
                    },
                    effects: seq![
                        EffectView::ToRoom { room, message: RoomMsgView::LeaveRoom(member) },
                        EffectView::Reply { to: sender, response: CoordinatorResponse::RoomLeft },
                    ],
                },
            )
        }
    }

    /// What one message makes of the registry.
    pub open spec fn step(self, message: CoordinatorMsgView) -> Result<Outcome, CoordinatorError> {
        match message {
            CoordinatorMsgView::Signal(tag) => Ok(self.signal(tag)),
            CoordinatorMsgView::Request { sender, link, data } => match data {
                RequestView::JoinServer(username) => Ok(self.join_server(sender, link, username)),
                RequestView::LeaveServer => Ok(self.leave_server(sender)),
                RequestView::JoinRoom(name, client) => self.join_room(sender, name, client),
                RequestView::CreateRoom(name, client) => self.create_room(sender, name, client),
                RequestView::LeaveRoom(client) => self.leave_room(sender, client),
            },
        }
    }

    /// The registry after `message`: as it was, where the message is refused.
    pub open spec fn after(self, message: CoordinatorMsgView) -> CoordinatorView {
        match self.step(message) {
            Ok(outcome) => outcome.state,
            Err(_) => self,
        }
    }
}

/// 1 if `session` is in `room`, else 0.
pub open spec fn seat(session: SessionView, room: RoomId) -> nat {
    if session.room == Some(room) {
        1
    } else {
        0
    }
}

/// A session more in the table is one more in its room, if it is in one.
pub proof fn lemma_occupants_push(sessions: Seq<SessionView>, session: SessionView, room: RoomId)
    ensures
        occupants(sessions.push(session), room) == occupants(sessions, room) + seat(session, room),
{
    assert(sessions.push(session).drop_last() =~= sessions);
}

/// A session less in the table is one less in its room, if it was in one.
pub proof fn lemma_occupants_remove(sessions: Seq<SessionView>, i: int, room: RoomId)
    requires
        0 <= i < sessions.len(),
    ensures
        occupants(sessions.remove(i), room) + seat(sessions[i], room) == occupants(sessions, room),
    decreases sessions.len(),
{
    if i < sessions.len() - 1 {
        lemma_occupants_remove(sessions.drop_last(), i, room);
        assert(sessions.remove(i).drop_last() =~= sessions.drop_last().remove(i));
    }
}

/// A session that changes its room is one less in the room it was in and one
/// more in the room it is in.
pub proof fn lemma_occupants_update(
    sessions: Seq<SessionView>,
    i: int,
    session: SessionView,
    room: RoomId,
)
    requires
        0 <= i < sessions.len(),
    ensures
        occupants(sessions.update(i, session), room) + seat(sessions[i], room) == occupants(
            sessions,
            room,
        ) + seat(session, room),
    decreases sessions.len(),
{
    if i == sessions.len() - 1 {
        assert(sessions.update(i, session).drop_last() =~= sessions.drop_last());
    } else {
        lemma_occupants_update(sessions.drop_last(), i, session, room);
        assert(sessions.update(i, session).drop_last() =~= sessions.drop_last().update(
            i,
            session,
        ));
    }
}

/// A room counts no more sessions than there are, and fewer where one of them
/// is elsewhere.
pub proof fn lemma_occupants_bound(sessions: Seq<SessionView>, room: RoomId)
    ensures
        occupants(sessions, room) <= sessions.len(),
        (exists|i: int| 0 <= i < sessions.len() && (#[trigger] sessions[i]).room != Some(room))
            ==> occupants(sessions, room) < sessions.len(),
        (forall|i: int| 0 <= i < sessions.len() ==> (#[trigger] sessions[i]).room != Some(room))
            ==> occupants(sessions, room) == 0,
        (exists|i: int| 0 <= i < sessions.len() && (#[trigger] sessions[i]).room == Some(room))
            ==> occupants(sessions, room) >= 1,
    decreases sessions.len(),
{
    if sessions.len() > 0 {
        let front = sessions.drop_last();
        lemma_occupants_bound(front, room);
        if exists|i: int| 0 <= i < sessions.len() && (#[trigger] sessions[i]).room != Some(room) {
            let i = choose|i: int|
                0 <= i < sessions.len() && (#[trigger] sessions[i]).room != Some(room);
            if i < front.len() {
                assert(front[i].room != Some(room));
            }
        }
        if exists|i: int| 0 <= i < sessions.len() && (#[trigger] sessions[i]).room == Some(room) {
            let i = choose|i: int|
                0 <= i < sessions.len() && (#[trigger] sessions[i]).room == Some(room);
            if i < front.len() {
                assert(front[i].room == Some(room));
            }
        }
    }
}

impl CoordinatorView {
    /// Where the table is sound, a session is found by its handle alone.
    pub proof fn lemma_session_index(self, i: int)
        requires
            self.wf(),
            0 <= i < self.sessions.len(),
        ensures
            self.has_session(self.sessions[i].id),
            self.session_index(self.sessions[i].id) == i,
            self.name_taken(self.sessions[i].username),
    {
    }

    /// The first session under a tag is the one before which no other stands.
    pub proof fn lemma_first_linked(self, tag: LinkTag, i: int)
        requires
            self.is_first_linked(tag, i),
        ensures
            self.is_linked(tag),
            self.first_linked(tag) == i,
    {
    }

    /// A tag under which a session is linked has a first session.
    pub proof fn lemma_linked_has_first(self, tag: LinkTag)
        requires
            self.is_linked(tag),
        ensures
            self.is_first_linked(tag, self.first_linked(tag)),
    {
        let i = choose|i: int| 0 <= i < self.sessions.len() && (#[trigger] self.sessions[i]).tag == tag;
        self.lemma_least_linked(tag, i);
    }

    proof fn lemma_least_linked(self, tag: LinkTag, i: int)
        requires
            0 <= i < self.sessions.len(),
            self.sessions[i].tag == tag,
        ensures
            exists|j: int| self.is_first_linked(tag, j),
        decreases i,
    {
        if exists|j: int| 0 <= j < i && (#[trigger] self.sessions[j]).tag == tag {
            let j = choose|j: int| 0 <= j < i && (#[trigger] self.sessions[j]).tag == tag;
            self.lemma_least_linked(tag, j);
        } else {
            assert(self.is_first_linked(tag, i));
        }
    }

    /// The bookkeeping that is common to a session that was struck and one that
    /// left its room. Where `sessions` has one session less in `from` than the
    /// table and as many in every other room, and none in a room that the table
    /// has nobody in, the directory that counts one less for `from` fits it.
    proof fn lemma_directory_fits(self, sessions: Seq<SessionView>, from: Option<RoomId>)
        requires
            self.wf(),
            from is Some ==> self.has_entry(from->0),
            forall|room: RoomId| #[trigger]
                occupants(sessions, room) + (if from == Some(room) {
                    1nat
                } else {
                    0nat
                }) == occupants(self.sessions, room),
            forall|j: int|
                0 <= j < sessions.len() && (#[trigger] sessions[j]).room is Some
                    ==> self.has_entry(sessions[j].room->0),
        ensures
            ({
                let next = CoordinatorView {
                    sessions,
                    rooms: match from {
                        Some(room) => self.vacated(room),
                        None => self.rooms,
                    },
                    ..self
                };
                &&& forall|k: int, l: int|
                    0 <= k < l < next.rooms.len() ==> (#[trigger] next.rooms[k]).name != (
                    #[trigger] next.rooms[l]).name
                &&& forall|k: int, l: int|
                    0 <= k < l < next.rooms.len() ==> (#[trigger] next.rooms[k]).room != (
                    #[trigger] next.rooms[l]).room
                &&& forall|k: int|
                    0 <= k < next.rooms.len() ==> {
                        &&& (#[trigger] next.rooms[k]).room < next.next_room
                        &&& next.rooms[k].size >= 1
                        &&& next.rooms[k].size == occupants(sessions, next.rooms[k].room)
                        &&& next.within_limit(next.rooms[k].size)
                    }
                &&& forall|j: int|
                    0 <= j < sessions.len() && (#[trigger] sessions[j]).room is Some
                        ==> next.has_entry(sessions[j].room->0)
            }),
    {
        let rooms = match from {
            Some(room) => self.vacated(room),
            None => self.rooms,
        };
        let next = CoordinatorView { sessions, rooms, ..self };
        let k = if from is Some {
            self.entry_index(from->0)
        } else {
            -1
        };
        let shrinks = from is Some && self.rooms[k].size <= 1;
        // A room that somebody is in still has its entry, one place further to
        // the front if the entry before it went.
        assert forall|j: int|
            0 <= j < sessions.len() && (#[trigger] sessions[j]).room is Some implies next.has_entry(
            sessions[j].room->0,
        ) by {
            let other = sessions[j].room->0;
            let m = self.entry_index(other);
            if shrinks && m == k {
                lemma_occupants_bound(sessions, other);
            }
            let at = if shrinks && m > k {
                m - 1
            } else {
                m
            };
            assert(next.rooms[at].room == other);
        }
    }

    /// Striking a session leaves the registry sound.
    pub proof fn lemma_released_wf(self, i: int)
        requires
            self.wf(),
            0 <= i < self.sessions.len(),
        ensures
            self.released(i).state.wf(),
            !self.released(i).state.has_session(self.sessions[i].id),
            !self.released(i).state.is_linked(self.sessions[i].tag),
            forall|id: SessionId|
                self.released(i).state.has_session(id) ==> self.has_session(id),
            forall|tag: LinkTag| self.released(i).state.is_linked(tag) ==> self.is_linked(tag),
            forall|name: Seq<char>|
                self.released(i).state.name_taken(name) ==> self.name_taken(name),
    {
        let gone = self.sessions[i];
        let sessions = self.sessions.remove(i);
        assert forall|room: RoomId| #[trigger]
            occupants(sessions, room) + (if gone.room == Some(room) {
                1nat
            } else {
                0nat
            }) == occupants(self.sessions, room) by {
            lemma_occupants_remove(self.sessions, i, room);
        }
        self.lemma_directory_fits(sessions, gone.room);
    }

    /// Taking a session out of its room leaves the registry sound.
    pub proof fn lemma_leave_room_wf(self, sender: SessionId, client: SessionId)
        requires
            self.wf(),
            self.leave_room(sender, client) is Ok,
        ensures
            self.leave_room(sender, client)->Ok_0.state.wf(),
    {
        let next = self.leave_room(sender, client)->Ok_0.state;
        let i = self.session_index(sender);
        let sessions = next.sessions;
        let from = self.sessions[i].room;
        assert forall|room: RoomId| #[trigger]
            occupants(sessions, room) + (if from == Some(room) {
                1nat
            } else {
                0nat
            }) == occupants(self.sessions, room) by {
            lemma_occupants_update(
                self.sessions,
                i,
                SessionView { room: None, ..self.sessions[i] },
                room,
            );
        }
        self.lemma_directory_fits(sessions, from);
    }

    /// Entering a session under a free name, a free handle and a free tag leaves
    /// the registry sound.
    proof fn lemma_entered_wf(self, session: SessionView)
        requires
            self.wf(),
            !self.has_session(session.id),
            !self.is_linked(session.tag),
            !self.name_taken(session.username),
            session.room is None,
        ensures
            (CoordinatorView { sessions: self.sessions.push(session), ..self }).wf(),
    {
        let next = CoordinatorView { sessions: self.sessions.push(session), ..self };
        assert forall|k: int| 0 <= k < next.rooms.len() implies (#[trigger] next.rooms[k]).size
            == occupants(next.sessions, next.rooms[k].room) by {
            lemma_occupants_push(self.sessions, session, next.rooms[k].room);
        }
    }

    /// `JoinServer` leaves the registry sound.
    pub proof fn lemma_join_server_wf(self, sender: SessionId, link: LinkTag, username: Seq<char>)
        requires
            self.wf(),
        ensures
            self.join_server(sender, link, username).state.wf(),
    {
        if !self.name_taken(username) {
            let cleared = self.released_id(sender).state;
            if self.has_session(sender) {
                self.lemma_released_wf(self.session_index(sender));
            }
            let unlinked = cleared.signal(link).state;
            if cleared.is_linked(link) {
                cleared.lemma_linked_has_first(link);
                cleared.lemma_released_wf(cleared.first_linked(link));
            }
            unlinked.lemma_entered_wf(SessionView { id: sender, tag: link, username, room: None });
        }
    }

    /// Seating a session that is in no room leaves every other room as it was
    /// and gives `room` one more.
    proof fn lemma_seated(self, i: int, room: RoomId)
        requires
            self.wf(),
            0 <= i < self.sessions.len(),
            self.sessions[i].room is None,
        ensures
            forall|other: RoomId| #[trigger]
                occupants(self.seated(i, room), other) == occupants(self.sessions, other) + (
                if other == room {
                    1nat
                } else {
                    0nat
                }),
            forall|a: int, b: int|
                0 <= a < b < self.sessions.len() ==> (#[trigger] self.seated(i, room)[a]).id != (
                #[trigger] self.seated(i, room)[b]).id && self.seated(i, room)[a].username
                    != self.seated(i, room)[b].username,
    {
        let seated = self.seated(i, room);
        assert forall|other: RoomId| #[trigger]
            occupants(seated, other) == occupants(self.sessions, other) + (if other == room {
                1nat
            } else {
                0nat
            }) by {
            lemma_occupants_update(
                self.sessions,
                i,
                SessionView { room: Some(room), ..self.sessions[i] },
                other,
            );
        }
    }

    /// `CreateRoom` leaves the registry sound.
    pub proof fn lemma_create_room_wf(self, sender: SessionId, name: Seq<char>, client: SessionId)
        requires
            self.wf(),
            self.create_room(sender, name, client) is Ok,
        ensures
            self.create_room(sender, name, client)->Ok_0.state.wf(),
    {
        if !self.has_room(name) {
            let next = self.create_room(sender, name, client)->Ok_0.state;
            let i = self.session_index(sender);
            let room = self.next_room;
            self.lemma_seated(i, room);
            lemma_occupants_bound(self.sessions, room);
            assert forall|j: int|
                0 <= j < next.sessions.len() && (
                #[trigger] next.sessions[j]).room is Some implies next.has_entry(
                next.sessions[j].room->0,
            ) by {
                if j == i {
                    assert(next.rooms[self.rooms.len() as int].room == room);
                } else {
                    let m = self.entry_index(self.sessions[j].room->0);
                    assert(next.rooms[m] == self.rooms[m]);
                }
            }
        }
    }

    /// `JoinRoom` leaves the registry sound.
    pub proof fn lemma_join_room_wf(self, sender: SessionId, name: Seq<char>, client: SessionId)
        requires
            self.wf(),
            self.join_room(sender, name, client) is Ok,
        ensures
            self.join_room(sender, name, client)->Ok_0.state.wf(),
    {
        if self.has_room(name) && !self.is_full(self.room_index(name)) {
            let next = self.join_room(sender, name, client)->Ok_0.state;
            let i = self.session_index(sender);
            let k = self.room_index(name);
            let room = self.rooms[k].room;
            self.lemma_seated(i, room);
            assert forall|j: int|
                0 <= j < next.sessions.len() && (
                #[trigger] next.sessions[j]).room is Some implies next.has_entry(
                next.sessions[j].room->0,
            ) by {
                if j == i {
                    assert(next.rooms[k].room == room);
                } else {
                    assert(self.sessions[j].room is Some);
                    let m = self.entry_index(self.sessions[j].room->0);
                    assert(next.rooms[m].room == self.rooms[m].room);
                }
            }
        }
    }

    /// Whatever the message, the registry stays sound.
    pub proof fn lemma_step_wf(self, message: CoordinatorMsgView)
        requires
            self.wf(),
        ensures
            self.after(message).wf(),
    {
        match message {
            CoordinatorMsgView::Signal(tag) => {
                if self.is_linked(tag) {
                    self.lemma_linked_has_first(tag);
                    self.lemma_released_wf(self.first_linked(tag));
                }
            },
            CoordinatorMsgView::Request { sender, link, data } => match data {
                RequestView::JoinServer(username) => {
                    self.lemma_join_server_wf(sender, link, username);
                },
                RequestView::LeaveServer => {
                    if self.has_session(sender) {
                        self.lemma_released_wf(self.session_index(sender));
                    }
                },
                RequestView::JoinRoom(name, client) => {
                    if self.join_room(sender, name, client) is Ok {
                        self.lemma_join_room_wf(sender, name, client);
                    }
                },
                RequestView::CreateRoom(name, client) => {
                    if self.create_room(sender, name, client) is Ok {
                        self.lemma_create_room_wf(sender, name, client);
                    }
                },
                RequestView::LeaveRoom(client) => {
                    if self.leave_room(sender, client) is Ok {
                        self.lemma_leave_room_wf(sender, client);
                    }
                },
            },
        }
    }

    /// The registry after `messages`, first to last.
    pub open spec fn run(self, messages: Seq<CoordinatorMsgView>) -> CoordinatorView
        decreases messages.len(),
    {
        if messages.len() == 0 {
            self
        } else {
            self.run(messages.drop_last()).after(messages.last())
        }
    }

    /// Whatever the messages, the registry stays sound.
    pub proof fn lemma_run_wf(self, messages: Seq<CoordinatorMsgView>)
        requires
            self.wf(),
        ensures
            self.run(messages).wf(),
        decreases messages.len(),
    {
        if messages.len() > 0 {
            self.lemma_run_wf(messages.drop_last());
            self.run(messages.drop_last()).lemma_step_wf(messages.last());
        }
    }
}

/// No two sessions hold the same name, whatever has been asked of the
/// coordinator since it started.
pub proof fn lemma_usernames_unique(
    max_client: Option<usize>,
    messages: Seq<CoordinatorMsgView>,
    i: int,
    j: int,
)
    requires
        0 <= i < CoordinatorView::initial(max_client).run(messages).sessions.len(),
        0 <= j < CoordinatorView::initial(max_client).run(messages).sessions.len(),
        i != j,
    ensures
        CoordinatorView::initial(max_client).run(messages).sessions[i].username
            != CoordinatorView::initial(max_client).run(messages).sessions[j].username,
{
    let start = CoordinatorView::initial(max_client);
    start.lemma_run_wf(messages);
}

/// `JoinServer` under a name that a session holds is answered
/// `UsernameAlreadyTaken`, whoever asks, and changes nothing.
pub proof fn lemma_taken_name_refused(
    state: CoordinatorView,
    sender: SessionId,
    link: LinkTag,
    username: Seq<char>,
)
    requires
        state.name_taken(username),
    ensures
        state.join_server(sender, link, username) == (Outcome {
            state,
            effects: reply(sender, CoordinatorResponse::UsernameAlreadyTaken),
        }),
{
}

/// `JoinServer` under a name that no session holds is answered `ServerJoined`,
/// and the sender holds the name afterwards.
pub proof fn lemma_free_name_granted(
    state: CoordinatorView,
    sender: SessionId,
    link: LinkTag,
    username: Seq<char>,
)
    requires
        state.wf(),
        !state.name_taken(username),
    ensures
        state.join_server(sender, link, username).effects.last() == (EffectView::Reply {
            to: sender,
            response: CoordinatorResponse::ServerJoined,
        }),
        state.join_server(sender, link, username).state.sessions.last() == (SessionView {
            id: sender,
            tag: link,
            username,
            room: None,
        }),
{
}

/// A room that takes `limit` members, `limit` at least one: `JoinRoom` by a
/// session that is in no room is answered `RoomFull` and changes nothing when
/// the room counts `limit`; else it is answered `RoomJoined` and the room
/// counts exactly one more.
pub proof fn lemma_room_capacity(
    state: CoordinatorView,
    sender: SessionId,
    name: Seq<char>,
    client: SessionId,
    limit: usize,
)
    requires
        state.wf(),
        state.max_client == Some(limit),
        limit >= 1,
        state.has_room(name),
        state.not_admitted(sender) is None,
    ensures
        ({
            let k = state.room_index(name);
            let entry = state.rooms[k];
            let answer = state.join_room(sender, name, client);
            &&& entry.size <= limit
            &&& entry.size == limit ==> answer == Ok::<Outcome, CoordinatorError>(
                Outcome { state, effects: reply(sender, CoordinatorResponse::RoomFull) },
            )
            &&& entry.size < limit ==> {
                &&& answer is Ok
                &&& answer->Ok_0.effects.last() == (EffectView::Reply {
                    to: sender,
                    response: CoordinatorResponse::RoomJoined(entry.room),
                })
                &&& answer->Ok_0.state.rooms.len() == state.rooms.len()
                &&& answer->Ok_0.state.rooms[k] == (EntryView { size: entry.size + 1, ..entry })
                &&& forall|l: int|
                    0 <= l < state.rooms.len() && l != k ==> #[trigger] answer->Ok_0.state.rooms[l]
                        == state.rooms[l]
            }
        }),
{
}

/// A room is never entered while it counts as many members as the game
/// allows, whoever asks and whatever the limit.
pub proof fn lemma_full_room_refuses(
    state: CoordinatorView,
    sender: SessionId,
    name: Seq<char>,
    client: SessionId,
    limit: usize,
)
    requires
        state.max_client == Some(limit),
        state.has_room(name),
        state.rooms[state.room_index(name)].size >= limit,
    ensures
        state.join_room(sender, name, client) == Ok::<Outcome, CoordinatorError>(
            Outcome { state, effects: reply(sender, CoordinatorResponse::RoomFull) },
        ),
{
}

/// The loss of one connection is cleaned up once. The session actor reports it
/// by `LeaveServer`, the runtime by a signal under the tag of the session; in
/// whichever order the two arrive, the first strikes the session, tells its
/// room and counts one less for it, and the second finds nothing to do.
pub proof fn lemma_drop_once(state: CoordinatorView, i: int)
    requires
        state.wf(),
        0 <= i < state.sessions.len(),
    ensures
        ({
            let session = state.sessions[i];
            let cleaned = state.released(i);
            let answer = reply(session.id, CoordinatorResponse::ServerLeft);
            &&& state.leave_server(session.id) == (Outcome {
                state: cleaned.state,
                effects: cleaned.effects + answer,
            })
            &&& state.signal(session.tag) == cleaned
            &&& cleaned.state.signal(session.tag) == (Outcome {
                state: cleaned.state,
                effects: Seq::empty(),
            })
            &&& cleaned.state.leave_server(session.id) == (Outcome {
                state: cleaned.state,
                effects: answer,
            })
            &&& cleaned.state.rooms == match session.room {
                Some(room) => state.vacated(room),
                None => state.rooms,
            }
        }),
{
    state.lemma_first_linked(state.sessions[i].tag, i);
}

} // verus!
