//! The coordinator and the rooms taken together: what the directory says of a
//! room is what the room itself knows.
//!
//! The model delivers what the coordinator sends to a room at once, so that a
//! state of the whole is a state in which no message is under way.

use crate::client::ConnectionView;
use crate::message::{GameStateView, MessageFromClientView};
use crate::registry::{
    lemma_occupants_bound, lemma_occupants_remove, lemma_occupants_update, occupants, seat,
    CoordinatorMsgView, CoordinatorResponse, CoordinatorView, EffectView, LinkTag, RequestView,
    RoomId, SessionView,
};
use crate::room::{
    enrolled, enrolled_at, roster_after, share_of, stays_open, ClientView, ContextView,
    RoomMsgView,
};
use crate::state::StateView;
use vstd::prelude::*;

verus! {

/// A room that is alive.
pub struct RoomView {
    /// The name under which the room was started.
    pub name: Seq<char>,
    /// Its members, in the order in which they came in.
    pub roster: Seq<ClientView>,
}

/// The rooms that are alive, by their handles.
pub type Rooms = Map<RoomId, RoomView>;

/// The rooms after the runtime has done what `effect` asks: a room that is
/// started has no members yet, and a room that a message leaves without
/// members, when it says that one went away, is gone.
pub open spec fn performed(rooms: Rooms, effect: EffectView) -> Rooms {
    match effect {
        EffectView::Spawn { room, name } => rooms.insert(
            room,
            RoomView { name, roster: Seq::empty() },
        ),
        EffectView::ToRoom { room, message } => if rooms.dom().contains(room) {
            let roster = roster_after(rooms[room].roster, message);
            if stays_open(message, roster) {
                rooms.insert(room, RoomView { roster, ..rooms[room] })
            } else {
                rooms.remove(room)
            }
        } else {
            rooms
        },
        EffectView::Reply { to, response } => rooms,
    }
}

/// The rooms after `effects`, first to last.
pub open spec fn performed_all(rooms: Rooms, effects: Seq<EffectView>) -> Rooms
    decreases effects.len(),
{
    if effects.len() == 0 {
        rooms
    } else {
        performed(performed_all(rooms, effects.drop_last()), effects.last())
    }
}

/// Whether a session of `sessions` called `username` is in `room`.
pub open spec fn seated_as(sessions: Seq<SessionView>, room: RoomId, username: Seq<char>) -> bool {
    exists|j: int|
        0 <= j < sessions.len() && (#[trigger] sessions[j]).username == username
            && sessions[j].room == Some(room)
}

/// Whether the members of a room are the sessions that the table has in it:
/// each once, and nobody else.
pub open spec fn faithful(sessions: Seq<SessionView>, room: RoomId, roster: Seq<ClientView>) -> bool {
    &&& forall|a: int, b: int|
        0 <= a < b < roster.len() ==> (#[trigger] roster[a]).username != (
        #[trigger] roster[b]).username
    &&& forall|a: int|
        0 <= a < roster.len() ==> seated_as(sessions, room, (#[trigger] roster[a]).username)
    &&& forall|j: int|
        0 <= j < sessions.len() && (#[trigger] sessions[j]).room == Some(room) ==> enrolled(
            roster,
            sessions[j].username,
        )
}

/// The coordinator and the rooms that are alive.
pub struct SystemView {
    pub coordinator: CoordinatorView,
    pub rooms: Rooms,
}

impl SystemView {
    pub open spec fn initial(max_client: Option<usize>) -> SystemView {
        SystemView { coordinator: CoordinatorView::initial(max_client), rooms: Map::empty() }
    }

    /// The whole after the coordinator has handled `message` and the runtime
    /// has done what it asked. A message that is refused changes nothing.
    pub open spec fn after(self, message: CoordinatorMsgView) -> SystemView {
        match self.coordinator.step(message) {
            Ok(outcome) => SystemView {
                coordinator: outcome.state,
                rooms: performed_all(self.rooms, outcome.effects),
            },
            Err(_) => self,
        }
    }

    /// The whole after `messages`, first to last.
    pub open spec fn run(self, messages: Seq<CoordinatorMsgView>) -> SystemView
        decreases messages.len(),
    {
        if messages.len() == 0 {
            self
        } else {
            self.run(messages.drop_last()).after(messages.last())
        }
    }

    /// Every room of the directory is alive under the name of its entry.
    pub open spec fn names_fit(self) -> bool {
        forall|k: int|
            0 <= k < self.coordinator.rooms.len() ==> self.rooms.dom().contains(
                (#[trigger] self.coordinator.rooms[k]).room,
            ) && self.rooms[self.coordinator.rooms[k].room].name == self.coordinator.rooms[k].name
    }

    /// The directory and the rooms agree: a room is in the directory if and
    /// only if it is alive, and then under the same name; a room that is alive
    /// has as many members as its entry counts, at least one; and its members
    /// are the sessions that the table has in it.
    pub open spec fn agreement(self) -> bool {
        &&& self.coordinator.wf()
        &&& forall|room: RoomId| #[trigger]
            self.rooms.dom().contains(room) <==> self.coordinator.has_entry(room)
        &&& self.names_fit()
        &&& forall|k: int|
            0 <= k < self.coordinator.rooms.len() ==> self.rooms[(
            #[trigger] self.coordinator.rooms[k]).room].roster.len()
                == self.coordinator.rooms[k].size
        &&& forall|room: RoomId| #[trigger]
            self.rooms.dom().contains(room) ==> faithful(
                self.coordinator.sessions,
                room,
                self.rooms[room].roster,
            )
    }

    /// The same, said of the sessions alone: a room is alive if and only if a
    /// session is in it, and has as many members as sessions are in it.
    pub open spec fn accord(self) -> bool {
        &&& self.coordinator.wf()
        &&& self.names_fit()
        &&& forall|room: RoomId| #[trigger]
            self.rooms.dom().contains(room) <==> occupants(self.coordinator.sessions, room) >= 1
        &&& forall|room: RoomId| #[trigger]
            self.rooms.dom().contains(room) ==> self.rooms[room].roster.len() == occupants(
                self.coordinator.sessions,
                room,
            )
        &&& forall|room: RoomId| #[trigger]
            self.rooms.dom().contains(room) ==> faithful(
                self.coordinator.sessions,
                room,
                self.rooms[room].roster,
            )
    }
}

impl CoordinatorView {
    /// In a sound registry a room is in the directory if and only if a session
    /// is in it, and its entry counts the sessions that are.
    pub proof fn lemma_entries_count(self)
        requires
            self.wf(),
        ensures
            forall|room: RoomId| #[trigger]
                self.has_entry(room) <==> occupants(self.sessions, room) >= 1,
            forall|k: int|
                0 <= k < self.rooms.len() ==> (#[trigger] self.rooms[k]).size == occupants(
                    self.sessions,
                    self.rooms[k].room,
                ),
    {
        assert forall|room: RoomId| #[trigger]
            self.has_entry(room) <==> occupants(self.sessions, room) >= 1 by {
            lemma_occupants_bound(self.sessions, room);
        }
    }
}

/// The two ways of saying that the directory and the rooms agree say the same.
pub proof fn lemma_accord(system: SystemView)
    requires
        system.coordinator.wf(),
    ensures
        system.accord() <==> system.agreement(),
{
    let registry = system.coordinator;
    registry.lemma_entries_count();
}

/// Whether `next` is `sessions` after the session at `i` went out of its room:
/// struck from the table, or staying in it without a room.
pub open spec fn one_out(sessions: Seq<SessionView>, i: int, next: Seq<SessionView>) -> bool {
    &&& 0 <= i < sessions.len()
    &&& next == sessions.remove(i) || next == sessions.update(
        i,
        SessionView { room: None, ..sessions[i] },
    )
}

/// A room other than the one that a session went out of has the members it had.
proof fn lemma_out_elsewhere(
    sessions: Seq<SessionView>,
    i: int,
    next: Seq<SessionView>,
    other: RoomId,
    roster: Seq<ClientView>,
)
    requires
        one_out(sessions, i, next),
        sessions[i].room != Some(other),
        faithful(sessions, other, roster),
    ensures
        faithful(next, other, roster),
{
    let removed = next == sessions.remove(i);
    assert forall|a: int| 0 <= a < roster.len() implies seated_as(
        next,
        other,
        (#[trigger] roster[a]).username,
    ) by {
        let o = choose|o: int|
            0 <= o < sessions.len() && (#[trigger] sessions[o]).username == roster[a].username
                && sessions[o].room == Some(other);
        let j = if removed && o > i {
            o - 1
        } else {
            o
        };
        assert(next[j].username == roster[a].username && next[j].room == Some(other));
    }
}

/// The room that a session went out of has the members it had but for that one.
proof fn lemma_out_here(
    sessions: Seq<SessionView>,
    i: int,
    next: Seq<SessionView>,
    room: RoomId,
    roster: Seq<ClientView>,
)
    requires
        one_out(sessions, i, next),
        sessions[i].room == Some(room),
        faithful(sessions, room, roster),
        forall|a: int, b: int|
            0 <= a < b < sessions.len() ==> (#[trigger] sessions[a]).username != (
            #[trigger] sessions[b]).username,
    ensures
        enrolled(roster, sessions[i].username),
        faithful(next, room, roster.remove(enrolled_at(roster, sessions[i].username))),
{
    let removed = next == sessions.remove(i);
    let gone = sessions[i].username;
    let at = enrolled_at(roster, gone);
    let rest = roster.remove(at);
    assert forall|a: int| 0 <= a < rest.len() implies seated_as(
        next,
        room,
        (#[trigger] rest[a]).username,
    ) by {
        let b = if a >= at {
            a + 1
        } else {
            a
        };
        let o = choose|o: int|
            0 <= o < sessions.len() && (#[trigger] sessions[o]).username == roster[b].username
                && sessions[o].room == Some(room);
        let j = if removed && o > i {
            o - 1
        } else {
            o
        };
        assert(next[j].username == rest[a].username && next[j].room == Some(room));
    }
    assert forall|j: int| 0 <= j < next.len() && (#[trigger] next[j]).room == Some(
        room,
    ) implies enrolled(rest, next[j].username) by {
        let o = if removed && j >= i {
            j + 1
        } else {
            j
        };
        assert(o != i);
        let b = enrolled_at(roster, sessions[o].username);
        let a = if b > at {
            b - 1
        } else {
            b
        };
        assert(rest[a].username == next[j].username);
    }
}

/// Whether every room that `next` lists was listed by `registry` under the
/// same name.
pub open spec fn lists_no_more(registry: CoordinatorView, next: CoordinatorView) -> bool {
    forall|k: int|
        0 <= k < next.rooms.len() ==> registry.listed(
            (#[trigger] next.rooms[k]).name,
            next.rooms[k].room,
        )
}

/// Whether every room that `registry` lists is among `rooms` under the name of
/// its entry.
pub open spec fn names_among(registry: CoordinatorView, rooms: Rooms) -> bool {
    forall|k: int|
        0 <= k < registry.rooms.len() ==> rooms.dom().contains(
            (#[trigger] registry.rooms[k]).room,
        ) && rooms[registry.rooms[k].room].name == registry.rooms[k].name
}

/// One session goes out of its room, struck from the table or staying in it
/// without a room, and the room is told: the directory and the rooms agree as
/// they did.
proof fn lemma_one_out(
    system: SystemView,
    next: CoordinatorView,
    i: int,
    room: RoomId,
    message: RoomMsgView,
)
    requires
        system.accord(),
        next.wf(),
        lists_no_more(system.coordinator, next),
        one_out(system.coordinator.sessions, i, next.sessions),
        system.coordinator.sessions[i].room == Some(room),
        message == RoomMsgView::Drop(system.coordinator.sessions[i].username) || (
        message matches RoomMsgView::LeaveRoom(client) && client.username
            == system.coordinator.sessions[i].username),
    ensures
        (SystemView {
            coordinator: next,
            rooms: performed(system.rooms, EffectView::ToRoom { room, message }),
        }).accord(),
{
    let sessions = system.coordinator.sessions;
    let gone = sessions[i];
    let rooms = performed(system.rooms, EffectView::ToRoom { room, message });
    let roster = system.rooms[room].roster;
    lemma_out_here(sessions, i, next.sessions, room, roster);
    assert forall|other: RoomId| #[trigger]
        occupants(next.sessions, other) + seat(gone, other) == occupants(sessions, other) by {
        if next.sessions == sessions.remove(i) {
            lemma_occupants_remove(sessions, i, other);
        } else {
            lemma_occupants_update(sessions, i, SessionView { room: None, ..gone }, other);
        }
    }
    assert forall|other: RoomId| #[trigger] rooms.dom().contains(other) implies faithful(
        next.sessions,
        other,
        rooms[other].roster,
    ) by {
        if other != room {
            lemma_out_elsewhere(sessions, i, next.sessions, other, system.rooms[other].roster);
        }
    }
}

/// One session that was in no room comes into a room, and the room is told:
/// the directory and the rooms agree as they did. The room is alive already, or
/// it has just been started and nobody is in it.
proof fn lemma_one_in(
    system: SystemView,
    next: CoordinatorView,
    i: int,
    room: RoomId,
    client: ClientView,
    rooms: Rooms,
)
    requires
        system.accord(),
        next.wf(),
        0 <= i < system.coordinator.sessions.len(),
        system.coordinator.sessions[i].room is None,
        client.username == system.coordinator.sessions[i].username,
        next.sessions == system.coordinator.seated(i, room),
        rooms.dom().contains(room),
        rooms.remove(room) == system.rooms.remove(room),
        system.rooms.dom().contains(room) ==> rooms[room].roster == system.rooms[room].roster,
        !system.rooms.dom().contains(room) ==> rooms[room].roster.len() == 0,
        names_among(next, rooms),
    ensures
        (SystemView {
            coordinator: next,
            rooms: performed(
                rooms,
                EffectView::ToRoom { room, message: RoomMsgView::JoinRoom(client) },
            ),
        }).accord(),
{
    let sessions = system.coordinator.sessions;
    let comer = sessions[i];
    let message = RoomMsgView::JoinRoom(client);
    let result = performed(rooms, EffectView::ToRoom { room, message });
    let roster = rooms[room].roster;
    lemma_occupants_bound(sessions, room);
    // Every other room is as it was.
    assert forall|other: RoomId| other != room implies (#[trigger] rooms.dom().contains(other))
        == system.rooms.dom().contains(other) && (rooms.dom().contains(other) ==> rooms[other]
        == system.rooms[other]) by {
        assert(system.rooms.remove(room).dom().contains(other) == system.rooms.dom().contains(
            other,
        ));
        if rooms.dom().contains(other) {
            assert(system.rooms.remove(room)[other] == system.rooms[other]);
        }
    }
    assert forall|other: RoomId| #[trigger]
        occupants(next.sessions, other) == occupants(sessions, other) + (if other == room {
            1nat
        } else {
            0nat
        }) by {
        lemma_occupants_update(sessions, i, SessionView { room: Some(room), ..comer }, other);
    }
    // Nobody of that name is in the room: its members are sessions, and the
    // only session of that name is in no room.
    if enrolled(roster, client.username) {
        let a = enrolled_at(roster, client.username);
        let o = choose|o: int|
            0 <= o < sessions.len() && (#[trigger] sessions[o]).username == roster[a].username
                && sessions[o].room == Some(room);
        if o < i {
            assert(sessions[o].username != sessions[i].username);
        } else if i < o {
            assert(sessions[i].username != sessions[o].username);
        }
    }
    assert forall|other: RoomId| #[trigger] result.dom().contains(other) implies faithful(
        next.sessions,
        other,
        result[other].roster,
    ) by {
        let now = result[other].roster;
        if other == room {
            assert forall|a: int| 0 <= a < now.len() implies seated_as(
                next.sessions,
                other,
                (#[trigger] now[a]).username,
            ) by {
                if a < roster.len() {
                    let o = choose|o: int|
                        0 <= o < sessions.len() && (#[trigger] sessions[o]).username
                            == roster[a].username && sessions[o].room == Some(room);
                    assert(next.sessions[o].username == now[a].username);
                } else {
                    assert(next.sessions[i].username == now[a].username);
                }
            }
            assert forall|j: int|
                0 <= j < next.sessions.len() && (#[trigger] next.sessions[j]).room == Some(
                    other,
                ) implies enrolled(now, next.sessions[j].username) by {
                if j == i {
                    assert(now[roster.len() as int].username == next.sessions[j].username);
                } else {
                    let b = enrolled_at(roster, sessions[j].username);
                    assert(now[b].username == next.sessions[j].username);
                }
            }
        } else {
            assert forall|a: int| 0 <= a < now.len() implies seated_as(
                next.sessions,
                other,
                (#[trigger] now[a]).username,
            ) by {
                let o = choose|o: int|
                    0 <= o < sessions.len() && (#[trigger] sessions[o]).username
                        == now[a].username && sessions[o].room == Some(other);
                assert(next.sessions[o].username == now[a].username);
            }
        }
    }
}

proof fn lemma_performed_more(rooms: Rooms, effects: Seq<EffectView>, effect: EffectView)
    ensures
        performed_all(rooms, effects.push(effect)) == performed(
            performed_all(rooms, effects),
            effect,
        ),
{
    assert(effects.push(effect).drop_last() =~= effects);
}

/// Doing one run of effects after another is doing them all in a row.
proof fn lemma_performed_append(rooms: Rooms, first: Seq<EffectView>, second: Seq<EffectView>)
    ensures
        performed_all(rooms, first + second) == performed_all(
            performed_all(rooms, first),
            second,
        ),
    decreases second.len(),
{
    if second.len() == 0 {
        assert(first + second =~= first);
    } else {
        lemma_performed_append(rooms, first, second.drop_last());
        assert((first + second).drop_last() =~= first + second.drop_last());
    }
}

/// A session that is in no room is struck from the table: the rooms are not
/// told, and the directory and the rooms agree as they did.
proof fn lemma_idle_out(system: SystemView, next: CoordinatorView, i: int)
    requires
        system.accord(),
        next.wf(),
        next.rooms == system.coordinator.rooms,
        0 <= i < system.coordinator.sessions.len(),
        system.coordinator.sessions[i].room is None,
        next.sessions == system.coordinator.sessions.remove(i),
    ensures
        (SystemView { coordinator: next, rooms: system.rooms }).accord(),
{
    let sessions = system.coordinator.sessions;
    assert forall|other: RoomId| #[trigger]
        occupants(next.sessions, other) == occupants(sessions, other) by {
        lemma_occupants_remove(sessions, i, other);
    }
    assert forall|other: RoomId| #[trigger] system.rooms.dom().contains(other) implies faithful(
        next.sessions,
        other,
        system.rooms[other].roster,
    ) by {
        lemma_out_elsewhere(sessions, i, next.sessions, other, system.rooms[other].roster);
    }
}

/// A session comes into the table, in no room: the rooms are not told, and the
/// directory and the rooms agree as they did.
proof fn lemma_idle_in(system: SystemView, next: CoordinatorView, session: SessionView)
    requires
        system.accord(),
        next.wf(),
        next.rooms == system.coordinator.rooms,
        session.room is None,
        next.sessions == system.coordinator.sessions.push(session),
    ensures
        (SystemView { coordinator: next, rooms: system.rooms }).accord(),
{
    let sessions = system.coordinator.sessions;
    assert forall|other: RoomId| #[trigger]
        occupants(next.sessions, other) == occupants(sessions, other) by {
        crate::registry::lemma_occupants_push(sessions, session, other);
    }
    assert forall|other: RoomId| #[trigger] system.rooms.dom().contains(other) implies faithful(
        next.sessions,
        other,
        system.rooms[other].roster,
    ) by {
        let roster = system.rooms[other].roster;
        assert forall|a: int| 0 <= a < roster.len() implies seated_as(
            next.sessions,
            other,
            (#[trigger] roster[a]).username,
        ) by {
            let o = choose|o: int|
                0 <= o < sessions.len() && (#[trigger] sessions[o]).username
                    == roster[a].username && sessions[o].room == Some(other);
            assert(next.sessions[o] == sessions[o]);
        }
    }
    assert forall|other: RoomId| #[trigger]
        system.rooms.dom().contains(other) implies system.rooms[other].roster.len()
        == occupants(next.sessions, other) by {
        assert(occupants(next.sessions, other) == occupants(sessions, other));
    }
}

/// The session at `i` is struck from the table and its room, if it has one, is
/// told: the directory and the rooms agree as they did.
proof fn lemma_released_accord(system: SystemView, i: int)
    requires
        system.accord(),
        0 <= i < system.coordinator.sessions.len(),
    ensures
        (SystemView {
            coordinator: system.coordinator.released(i).state,
            rooms: performed_all(system.rooms, system.coordinator.released(i).effects),
        }).accord(),
{
    let registry = system.coordinator;
    let outcome = registry.released(i);
    registry.lemma_released_wf(i);
    match registry.sessions[i].room {
        Some(room) => {
            let message = RoomMsgView::Drop(registry.sessions[i].username);
            let effect = EffectView::ToRoom { room, message };
            lemma_performed_more(system.rooms, Seq::empty(), effect);
            lemma_one_out(system, outcome.state, i, room, message);
        },
        None => {
            lemma_idle_out(system, outcome.state, i);
        },
    }
}

impl SystemView {
    /// Whatever the message, the directory and the rooms agree after it if they
    /// did before.
    pub proof fn lemma_step_accord(self, message: CoordinatorMsgView)
        requires
            self.accord(),
        ensures
            self.after(message).accord(),
    {
        let registry = self.coordinator;
        match message {
            CoordinatorMsgView::Signal(tag) => {
                if registry.is_linked(tag) {
                    registry.lemma_linked_has_first(tag);
                    lemma_released_accord(self, registry.first_linked(tag));
                }
            },
            CoordinatorMsgView::Request { sender, link, data } => match data {
                RequestView::JoinServer(username) => {
                    if !registry.name_taken(username) {
                        // First the session that the sender had, if any.
                        let cleared = registry.released_id(sender);
                        if registry.has_session(sender) {
                            lemma_released_accord(self, registry.session_index(sender));
                        }
                        let between = SystemView {
                            coordinator: cleared.state,
                            rooms: performed_all(self.rooms, cleared.effects),
                        };
                        // Then the session that held the tag, if any.
                        let unlinked = cleared.state.signal(link);
                        if cleared.state.is_linked(link) {
                            cleared.state.lemma_linked_has_first(link);
                            lemma_released_accord(between, cleared.state.first_linked(link));
                        }
                        let cleaned = SystemView {
                            coordinator: unlinked.state,
                            rooms: performed_all(between.rooms, unlinked.effects),
                        };
                        lemma_performed_append(self.rooms, cleared.effects, unlinked.effects);
                        let outcome = registry.join_server(sender, link, username);
                        registry.lemma_join_server_wf(sender, link, username);
                        let answer = EffectView::Reply {
                            to: sender,
                            response: CoordinatorResponse::ServerJoined,
                        };
                        assert(outcome.effects =~= (cleared.effects + unlinked.effects).push(
                            answer,
                        ));
                        lemma_performed_more(
                            self.rooms,
                            cleared.effects + unlinked.effects,
                            answer,
                        );
                        lemma_idle_in(
                            cleaned,
                            outcome.state,
                            SessionView { id: sender, tag: link, username, room: None },
                        );
                    } else {
                        let answer = EffectView::Reply {
                            to: sender,
                            response: CoordinatorResponse::UsernameAlreadyTaken,
                        };
                        lemma_performed_more(self.rooms, Seq::empty(), answer);
                    }
                },
                RequestView::LeaveServer => {
                    let cleared = registry.released_id(sender);
                    if registry.has_session(sender) {
                        lemma_released_accord(self, registry.session_index(sender));
                    }
                    let answer = EffectView::Reply {
                        to: sender,
                        response: CoordinatorResponse::ServerLeft,
                    };
                    assert(registry.leave_server(sender).effects =~= cleared.effects.push(answer));
                    lemma_performed_more(self.rooms, cleared.effects, answer);
                },
                RequestView::JoinRoom(name, client) => {
                    let answer = registry.join_room(sender, name, client);
                    if answer is Ok {
                        let outcome = answer->Ok_0;
                        if !registry.has_room(name) || registry.is_full(registry.room_index(name)) {
                            let told = outcome.effects[0];
                            lemma_performed_more(self.rooms, Seq::empty(), told);
                        } else {
                            registry.lemma_join_room_wf(sender, name, client);
                            let i = registry.session_index(sender);
                            let k = registry.room_index(name);
                            let room = registry.rooms[k].room;
                            let member = ClientView {
                                username: registry.sessions[i].username,
                                process: client,
                            };
                            let first = EffectView::ToRoom {
                                room,
                                message: RoomMsgView::JoinRoom(member),
                            };
                            let second = outcome.effects[1];
                            assert(outcome.effects =~= Seq::<EffectView>::empty().push(first).push(
                                second,
                            ));
                            lemma_performed_more(self.rooms, Seq::empty(), first);
                            lemma_performed_more(
                                self.rooms,
                                Seq::<EffectView>::empty().push(first),
                                second,
                            );
                            lemma_one_in(self, outcome.state, i, room, member, self.rooms);
                        }
                    }
                },
                RequestView::CreateRoom(name, client) => {
                    let answer = registry.create_room(sender, name, client);
                    if answer is Ok {
                        let outcome = answer->Ok_0;
                        if registry.has_room(name) {
                            let told = outcome.effects[0];
                            assert(outcome.effects =~= Seq::<EffectView>::empty().push(told));
                            lemma_performed_more(self.rooms, Seq::empty(), told);
                        } else {
                            registry.lemma_create_room_wf(sender, name, client);
                            registry.lemma_entries_count();
                            let i = registry.session_index(sender);
                            let room = registry.next_room;
                            let member = ClientView {
                                username: registry.sessions[i].username,
                                process: client,
                            };
                            let start = EffectView::Spawn { room, name };
                            let first = EffectView::ToRoom {
                                room,
                                message: RoomMsgView::JoinRoom(member),
                            };
                            let second = outcome.effects[2];
                            assert(outcome.effects =~= Seq::<EffectView>::empty().push(start).push(
                                first,
                            ).push(second));
                            lemma_performed_more(self.rooms, Seq::empty(), start);
                            lemma_performed_more(
                                self.rooms,
                                Seq::<EffectView>::empty().push(start),
                                first,
                            );
                            lemma_performed_more(
                                self.rooms,
                                Seq::<EffectView>::empty().push(start).push(first),
                                second,
                            );
                            // The handle is new: no room is alive under it.
                            if registry.has_entry(room) {
                                let k = registry.entry_index(room);
                                assert(registry.rooms[k].room < room);
                            }
                            assert(!self.rooms.dom().contains(room));
                            let started = self.rooms.insert(
                                room,
                                RoomView { name, roster: Seq::empty() },
                            );
                            assert(started.remove(room) =~= self.rooms.remove(room));
                            lemma_one_in(self, outcome.state, i, room, member, started);
                        }
                    }
                },
                RequestView::LeaveRoom(client) => {
                    let answer = registry.leave_room(sender, client);
                    if answer is Ok {
                        let outcome = answer->Ok_0;
                        registry.lemma_leave_room_wf(sender, client);
                        let i = registry.session_index(sender);
                        let room = registry.sessions[i].room->0;
                        let member = ClientView {
                            username: registry.sessions[i].username,
                            process: client,
                        };
                        let message = RoomMsgView::LeaveRoom(member);
                        let first = EffectView::ToRoom { room, message };
                        let second = outcome.effects[1];
                        assert(outcome.effects =~= Seq::<EffectView>::empty().push(first).push(
                            second,
                        ));
                        lemma_performed_more(self.rooms, Seq::empty(), first);
                        lemma_performed_more(
                            self.rooms,
                            Seq::<EffectView>::empty().push(first),
                            second,
                        );
                        lemma_one_out(self, outcome.state, i, room, message);
                    }
                },
            },
        }
    }

    /// Whatever the messages, the directory and the rooms agree after them if
    /// they did before.
    pub proof fn lemma_run_accord(self, messages: Seq<CoordinatorMsgView>)
        requires
            self.accord(),
        ensures
            self.run(messages).accord(),
        decreases messages.len(),
    {
        if messages.len() > 0 {
            self.lemma_run_accord(messages.drop_last());
            self.run(messages.drop_last()).lemma_step_accord(messages.last());
        }
    }
}

/// A room is in the directory if and only if it is alive, and then it is alive
/// under the name of its entry, has as many members as the entry counts, at
/// least one, and they are the sessions that the coordinator has in it: this
/// holds whatever has been asked of the coordinator since it started. The last
/// member to go takes the room and its entry with it in the same step.
pub proof fn lemma_directory_agrees(max_client: Option<usize>, messages: Seq<CoordinatorMsgView>)
    ensures
        SystemView::initial(max_client).run(messages).agreement(),
{
    let start = SystemView::initial(max_client);
    start.lemma_run_accord(messages);
    let end = start.run(messages);
    lemma_accord(end);
}

/// Whether a session and the coordinator say the same of the session: it has
/// joined if and only if it stands in the table, under the name it knows, and
/// it is in the room that the table has it in.
pub open spec fn in_step(session: ConnectionView, registry: CoordinatorView) -> bool {
    match session.username {
        Some(username) => {
            &&& registry.has_session(session.id)
            &&& registry.sessions[registry.session_index(session.id)].username == username
            &&& registry.sessions[registry.session_index(session.id)].room
                == session.current_room
        },
        None => !registry.has_session(session.id) && session.current_room is None,
    }
}

/// The answer that `effects` hold for `to`, if they end with one.
pub open spec fn answer_to(effects: Seq<EffectView>, to: u128) -> Option<CoordinatorResponse> {
    if effects.len() > 0 {
        match effects.last() {
            EffectView::Reply { to: receiver, response } => if receiver == to {
                Some(response)
            } else {
                None
            },
            _ => None,
        }
    } else {
        None
    }
}

/// A session that is in step with the coordinator is never refused. Whatever
/// its client sends, what the session asks of the coordinator is answered, and
/// once the session has taken the answer in, the two are in step again and the
/// session goes on. The one request that an honest session may see refused is
/// for a room when every room handle has been handed out.
pub proof fn lemma_in_step(
    session: ConnectionView,
    registry: CoordinatorView,
    message: MessageFromClientView,
    link: LinkTag,
)
    requires
        session.wf(),
        registry.wf(),
        in_step(session, registry),
        session.on_client(message).action is Ask,
        registry.next_room < u64::MAX,
    ensures
        ({
            let asked = session.on_client(message);
            let request = asked.action->Ask_0;
            let step = registry.step(
                CoordinatorMsgView::Request { sender: session.id, link, data: request },
            );
            &&& step is Ok
            &&& answer_to(step->Ok_0.effects, session.id) is Some
            &&& ({
                let answer = answer_to(step->Ok_0.effects, session.id)->0;
                let answered = asked.state.on_reply(request, answer);
                &&& in_step(answered.state, step->Ok_0.state)
                &&& answered.state.wf()
                &&& answered.action is Write || answered.action is Nothing
            })
        }),
{
    let asked = session.on_client(message);
    let request = asked.action->Ask_0;
    let id = session.id;
    let step = registry.step(CoordinatorMsgView::Request { sender: id, link, data: request });
    registry.lemma_step_wf(CoordinatorMsgView::Request { sender: id, link, data: request });
    if let MessageFromClientView::JoinRoom(name) = message {
        if registry.has_room(name) && !registry.is_full(registry.room_index(name)) {
            // The session stands where it stood, now in the room.
            let next = step->Ok_0.state;
            let i = registry.session_index(id);
            assert(next.sessions[i].id == id);
            next.lemma_session_index(i);
        }
    }
}

/// The copy of a player follows the room. Whatever a member is sent when a
/// snapshot is broadcast, its copy of the game is that snapshot once it has
/// taken the message in, provided that a member that is marked as holding a
/// snapshot holds the checkpoint. Afterwards every member is marked and the
/// snapshot is the checkpoint, so that the same holds of the next broadcast.
pub proof fn lemma_replica_follows(
    room: ContextView,
    state: GameStateView,
    i: int,
    copy: StateView,
)
    requires
        0 <= i < room.members.len(),
        room.members[i].has_full_state ==> room.checkpoint == Some(copy.game_state),
    ensures
        copy.received(
            share_of(room.members[i], state, room.delta_to(state)).message,
        ).state.game_state == state,
        copy.received(share_of(room.members[i], state, room.delta_to(state)).message).shown
            != Err::<Seq<Seq<char>>, crate::state::StateError>(crate::state::StateError::BadPatch),
        room.delivered(state, room.delta_to(state)).checkpoint == Some(state),
        room.delivered(state, room.delta_to(state)).members[i].has_full_state,
{
    if room.members[i].has_full_state {
        crate::delta::lemma_delta_round_trip(copy.game_state, state);
    }
}

} // verus!
