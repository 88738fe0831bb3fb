//! The coordinator: the one place that knows every session and every room.
//!
//! It takes one message at a time, brings its registry up to date and says what
//! is to be sent, started or answered.

use crate::message::{RoomName, Username};
use crate::registry::{
    lemma_occupants_bound, CoordinatorError, CoordinatorMsgView, CoordinatorResponse,
    CoordinatorView, EffectView, EntryView, LinkTag, Outcome, RequestView, RoomId, SessionView,
};
use crate::room::{Client, RoomMsg, SessionId};
use std::collections::HashMap;
use vstd::prelude::*;

verus! {

/// The number of sessions in a room.
pub type RoomSize = usize;

/// What a session asks of the coordinator.
#[derive(Debug)]
pub enum CoordinatorRequest {
    /// Answered by `ServerJoined` or `UsernameAlreadyTaken`.
    JoinServer(Username),
    /// Answered by `ServerLeft`.
    LeaveServer,
    /// Answered by `RoomJoined`, `RoomFull` or `RoomDoesNotExist`.
    JoinRoom(RoomName, SessionId),
    /// Answered by `RoomCreated` or `RoomNameAlreadyTaken`.
    CreateRoom(String, SessionId),
    /// Answered by `RoomLeft`.
    LeaveRoom(SessionId),
}

impl Clone for CoordinatorRequest {
    fn clone(&self) -> (copy: CoordinatorRequest)
        ensures
            copy@ == self@,
    {
        match self {
            CoordinatorRequest::JoinServer(username) => CoordinatorRequest::JoinServer(
                username.clone(),
            ),
            CoordinatorRequest::LeaveServer => CoordinatorRequest::LeaveServer,
            CoordinatorRequest::JoinRoom(name, client) => CoordinatorRequest::JoinRoom(
                name.clone(),
                *client,
            ),
            CoordinatorRequest::CreateRoom(name, client) => CoordinatorRequest::CreateRoom(
                name.clone(),
                *client,
            ),
            CoordinatorRequest::LeaveRoom(client) => CoordinatorRequest::LeaveRoom(*client),
        }
    }
}

impl View for CoordinatorRequest {
    type V = RequestView;

    open spec fn view(&self) -> RequestView {
        match self {
            CoordinatorRequest::JoinServer(username) => RequestView::JoinServer(username@),
            CoordinatorRequest::LeaveServer => RequestView::LeaveServer,
            CoordinatorRequest::JoinRoom(name, client) => RequestView::JoinRoom(name@, *client),
            CoordinatorRequest::CreateRoom(name, client) => RequestView::CreateRoom(name@, *client),
            CoordinatorRequest::LeaveRoom(client) => RequestView::LeaveRoom(*client),
        }
    }
}

/// What the coordinator finds in its mailbox.
#[derive(Debug)]
pub enum CoordinatorMsg {
    /// The session that was linked under the tag has died.
    Signal(LinkTag),
    /// `sender` asks; `link` is the tag under which it is watched if it joins.
    Request { sender: SessionId, link: LinkTag, data: CoordinatorRequest },
}

impl View for CoordinatorMsg {
    type V = CoordinatorMsgView;

    open spec fn view(&self) -> CoordinatorMsgView {
        match self {
            CoordinatorMsg::Signal(tag) => CoordinatorMsgView::Signal(*tag),
            CoordinatorMsg::Request { sender, link, data } => CoordinatorMsgView::Request {
                sender: *sender,
                link: *link,
                data: data@,
            },
        }
    }
}

/// What the coordinator asks the runtime to do.
#[derive(Debug)]
pub enum CoordinatorEffect {
    /// Start the room `room` under the name `name`.
    Spawn { room: RoomId, name: RoomName },
    /// Put `message` in the mailbox of `room`.
    ToRoom { room: RoomId, message: RoomMsg },
    /// Answer the request of `to`.
    Reply { to: SessionId, response: CoordinatorResponse },
}

impl View for CoordinatorEffect {
    type V = EffectView;

    open spec fn view(&self) -> EffectView {
        match self {
            CoordinatorEffect::Spawn { room, name } => EffectView::Spawn { room: *room, name: name@ },
            CoordinatorEffect::ToRoom { room, message } => EffectView::ToRoom {
                room: *room,
                message: message@,
            },
            CoordinatorEffect::Reply { to, response } => EffectView::Reply {
                to: *to,
                response: *response,
            },
        }
    }
}

impl DeepView for CoordinatorEffect {
    type V = EffectView;

    open spec fn deep_view(&self) -> EffectView {
        self@
    }
}

/// What the table holds of one session, under its handle.
#[derive(Debug)]
pub struct ClientInfo {
    tag: LinkTag,
    username: String,
    room: Option<RoomId>,
}

/// The session that `info` stands for under the handle `id`.
pub closed spec fn session_of(id: SessionId, info: ClientInfo) -> SessionView {
    SessionView { id, tag: info.tag, username: info.username@, room: info.room }
}

/// The table of sessions, by their handles. A hash map keeps no order; the
/// order in which the sessions came stands beside it as a ghost, for the
/// contracts to speak of.
pub struct Sessions {
    by_id: HashMap<SessionId, ClientInfo>,
    order: Ghost<Seq<SessionId>>,
}

impl View for Sessions {
    type V = Seq<SessionView>;

    closed spec fn view(&self) -> Seq<SessionView> {
        Seq::new(
            self.order@.len(),
            |i: int| session_of(self.order@[i], self.by_id@[self.order@[i]]),
        )
    }
}

impl Sessions {
    /// The handles under which the table holds a session are those of the
    /// order, each once.
    pub closed spec fn wf(&self) -> bool {
        &&& self.order@.no_duplicates()
        &&& forall|id: SessionId| self.by_id@.contains_key(id) <==> self.order@.contains(id)
    }

    /// Where the session `id` stands. Meaningful where there is one.
    pub closed spec fn place(&self, id: SessionId) -> int {
        self.order@.index_of(id)
    }

    /// Whether the session `id` stands at `at`, as `info`.
    pub open spec fn stands(&self, id: SessionId, info: ClientInfo, at: int) -> bool {
        &&& at == self.place(id)
        &&& 0 <= at < self@.len()
        &&& self@[at] == session_of(id, info)
        &&& self@[at].id == id
    }

    /// Whether no session stands under the handle `id`.
    pub open spec fn lacks(&self, id: SessionId) -> bool {
        forall|i: int| 0 <= i < self@.len() ==> (#[trigger] self@[i]).id != id
    }

    /// A session that the table holds stands in the order.
    proof fn lemma_place(&self, id: SessionId)
        requires
            self.wf(),
            self.by_id@.contains_key(id),
        ensures
            self.stands(id, self.by_id@[id], self.place(id)),
    {
        assert(self.order@.contains(id));
    }

    /// A handle that the table holds nothing under stands nowhere.
    proof fn lemma_lacks(&self, id: SessionId)
        requires
            self.wf(),
            !self.by_id@.contains_key(id),
        ensures
            self.lacks(id),
    {
        assert forall|i: int| 0 <= i < self@.len() implies (#[trigger] self@[i]).id != id by {
            assert(self.order@.contains(self.order@[i]));
        }
    }

    fn new() -> (table: Sessions)
        ensures
            table.wf(),
            table@ == Seq::<SessionView>::empty(),
    {
        let table = Sessions { by_id: HashMap::new(), order: Ghost(Seq::empty()) };
        assert(table@ =~= Seq::empty());
        table
    }

    fn len(&self) -> (n: usize)
        requires
            self.wf(),
        ensures
            n == self@.len(),
    {
        proof {
            self.order@.unique_seq_to_set();
            assert(self.order@.to_set() =~= self.by_id@.dom());
        }
        self.by_id.len()
    }

    /// What the table holds under the handle `id`.
    fn get(&self, id: SessionId) -> (found: Option<&ClientInfo>)
        requires
            self.wf(),
        ensures
            match found {
                Some(info) => self.stands(id, *info, self.place(id)),
                None => self.lacks(id),
            },
    {
        let found = self.by_id.get(&id);
        proof {
            if self.by_id@.contains_key(id) {
                self.lemma_place(id);
            } else {
                self.lemma_lacks(id);
            }
        }
        found
    }

    /// The session that is linked under `tag`, if there is one.
    fn find_link(&self, tag: LinkTag) -> (found: Option<SessionId>)
        requires
            self.wf(),
        ensures
            match found {
                Some(id) => 0 <= self.place(id) < self@.len() && self@[self.place(id)].id == id
                    && self@[self.place(id)].tag == tag,
                None => forall|i: int| 0 <= i < self@.len() ==> (#[trigger] self@[i]).tag != tag,
            },
    {
        for pair in it: self.by_id.iter()
            invariant
                self.wf(),
                forall|k: int| 0 <= k < it.index() ==> (#[trigger] it.seq()[k]).1.tag != tag,
        {
            let (id, info) = pair;
            if info.tag == tag {
                proof {
                    self.lemma_place(*id);
                }
                return Some(*id);
            }
        }
        assert forall|i: int| 0 <= i < self@.len() implies (#[trigger] self@[i]).tag != tag by {
            assert(self.order@.contains(self.order@[i]));
        }
        None
    }

    /// Whether a session holds the name `username`.
    fn holds_name(&self, username: &String) -> (held: bool)
        requires
            self.wf(),
        ensures
            held == exists|i: int|
                0 <= i < self@.len() && (#[trigger] self@[i]).username == username@,
    {
        for pair in it: self.by_id.iter()
            invariant
                self.wf(),
                forall|k: int| 0 <= k < it.index() ==> (#[trigger] it.seq()[k]).1.username@
                    != username@,
        {
            let (id, info) = pair;
            if info.username == *username {
                proof {
                    self.lemma_place(*id);
                    assert(self@[self.place(*id)].username == username@);
                }
                return true;
            }
        }
        assert forall|i: int| 0 <= i < self@.len() implies (#[trigger] self@[i]).username
            != username@ by {
            assert(self.order@.contains(self.order@[i]));
        }
        false
    }

    /// Take the session `id` out of the table.
    fn strike(&mut self, id: SessionId) -> (info: Option<ClientInfo>)
        requires
            old(self).wf(),
        ensures
            final(self).wf(),
            match info {
                Some(gone) => old(self).stands(id, gone, old(self).place(id)) && final(self)@
                    == old(self)@.remove(old(self).place(id)),
                None => old(self).lacks(id) && final(self)@ == old(self)@,
            },
    {
        let ghost at = self.order@.index_of(id);
        proof {
            if self.by_id@.contains_key(id) {
                self.lemma_place(id);
            } else {
                self.lemma_lacks(id);
            }
        }
        let info = self.by_id.remove(&id);
        proof {
            if info is Some {
                let before = self.order@;
                self.order@ = before.remove(at);
                let after = self.order@;
                assert forall|x: SessionId| after.contains(x) <==> (before.contains(x) && x
                    != id) by {
                    if after.contains(x) {
                        let i = choose|i: int| 0 <= i < after.len() && after[i] == x;
                        let o = if i < at {
                            i
                        } else {
                            i + 1
                        };
                        assert(before[o] == x);
                    }
                    if before.contains(x) && x != id {
                        let o = choose|o: int| 0 <= o < before.len() && before[o] == x;
                        let i = if o < at {
                            o
                        } else {
                            o - 1
                        };
                        assert(after[i] == x);
                    }
                }
                assert(self@ =~= old(self)@.remove(at));
            } else {
                assert(self@ =~= old(self)@);
            }
        }
        info
    }

    /// Put the session `id` in `room`, or in none.
    fn seat(&mut self, id: SessionId, room: Option<RoomId>)
        requires
            old(self).wf(),
            !old(self).lacks(id),
        ensures
            final(self).wf(),
            final(self).place(id) == old(self).place(id),
            0 <= old(self).place(id) < old(self)@.len(),
            final(self)@ == old(self)@.update(
                old(self).place(id),
                SessionView { room, ..old(self)@[old(self).place(id)] },
            ),
    {
        let ghost at = self.order@.index_of(id);
        proof {
            if self.by_id@.contains_key(id) {
                self.lemma_place(id);
            } else {
                self.lemma_lacks(id);
            }
        }
        match self.by_id.remove(&id) {
            Some(mut info) => {
                info.room = room;
                self.by_id.insert(id, info);
                assert forall|i: int| 0 <= i < self.order@.len() && i != at implies self.order@[i]
                    != id by {}
                assert(self@ =~= old(self)@.update(
                    at,
                    SessionView { room, ..old(self)@[at] },
                ));
            },
            None => {},
        }
    }

    /// Enter a session under the handle `id`, in no room.
    fn enter(&mut self, id: SessionId, tag: LinkTag, username: String)
        requires
            old(self).wf(),
            old(self).lacks(id),
        ensures
            final(self).wf(),
            final(self)@ == old(self)@.push(
                SessionView { id, tag, username: username@, room: None },
            ),
    {
        proof {
            if self.by_id@.contains_key(id) {
                self.lemma_place(id);
                assert(false);
            }
        }
        let ghost held = self.by_id@;
        self.by_id.insert(id, ClientInfo { tag, username, room: None });
        proof {
            let before = self.order@;
            assert(!before.contains(id));
            self.order@ = before.push(id);
            assert forall|i: int, j: int|
                0 <= i < self.order@.len() && 0 <= j < self.order@.len() && i
                    != j implies self.order@[i] != self.order@[j] by {
                if i < before.len() {
                    assert(before.contains(before[i]));
                }
                if j < before.len() {
                    assert(before.contains(before[j]));
                }
            }
            assert forall|x: SessionId| self.order@.contains(x) <==> (before.contains(x) || x
                == id) by {
                if before.contains(x) {
                    let o = choose|o: int| 0 <= o < before.len() && before[o] == x;
                    assert(self.order@[o] == x);
                }
                if x == id {
                    assert(self.order@[before.len() as int] == x);
                }
            }
            assert forall|x: SessionId| self.by_id@.contains_key(x) <==> self.order@.contains(
                x,
            ) by {
                assert(self.by_id@.contains_key(x) <==> (held.contains_key(x) || x == id));
                assert(held.contains_key(x) <==> before.contains(x));
            }
            assert(self@ =~= old(self)@.push(
                SessionView { id, tag, username: username@, room: None },
            ));
        }
    }
}

/// One room of the directory.
#[derive(Debug)]
pub struct RoomEntry {
    name: String,
    room: RoomId,
    size: RoomSize,
}

impl View for RoomEntry {
    type V = EntryView;

    closed spec fn view(&self) -> EntryView {
        EntryView { name: self.name@, room: self.room, size: self.size as nat }
    }
}

impl DeepView for RoomEntry {
    type V = EntryView;

    open spec fn deep_view(&self) -> EntryView {
        self@
    }
}

/// The state of the coordinator.
pub struct Coordinator {
    clients: Sessions,
    rooms: Vec<RoomEntry>,
    next_room: RoomId,
    max_client: Option<usize>,
}

impl View for Coordinator {
    type V = CoordinatorView;

    closed spec fn view(&self) -> CoordinatorView {
        CoordinatorView {
            sessions: self.clients@,
            rooms: self.rooms.deep_view(),
            next_room: self.next_room,
            max_client: self.max_client,
        }
    }
}

/// Whether `result` is what the model says of a message: the same effects and
/// the state that goes with them, or the same refusal and the state as it was.
pub open spec fn agrees(
    result: Result<Vec<CoordinatorEffect>, CoordinatorError>,
    state: CoordinatorView,
    before: CoordinatorView,
    model: Result<Outcome, CoordinatorError>,
) -> bool {
    match model {
        Ok(outcome) => result is Ok && result->Ok_0.deep_view() == outcome.effects && state
            == outcome.state,
        Err(error) => result == Err::<Vec<CoordinatorEffect>, CoordinatorError>(error) && state
            == before,
    }
}

fn one_reply(to: SessionId, response: CoordinatorResponse) -> (effects: Vec<CoordinatorEffect>)
    ensures
        effects.deep_view() == crate::registry::reply(to, response),
{
    let mut effects: Vec<CoordinatorEffect> = Vec::new();
    effects.push(CoordinatorEffect::Reply { to, response });
    effects
}

impl Coordinator {
    /// The table that the coordinator keeps.
    pub closed spec fn table(&self) -> Sessions {
        self.clients
    }

    /// The registry is sound, and so is the table that holds its sessions.
    pub open spec fn wf(&self) -> bool {
        self@.wf() && self.table().wf()
    }

    /// A coordinator that knows nobody, for rooms that take `max_client`
    /// members each.
    pub fn new(max_client: Option<usize>) -> (coordinator: Coordinator)
        ensures
            coordinator@ == CoordinatorView::initial(max_client),
            coordinator.wf(),
    {
        let coordinator = Coordinator {
            clients: Sessions::new(),
            rooms: Vec::new(),
            next_room: 0,
            max_client,
        };
        assert(coordinator@.sessions =~= Seq::empty());
        assert(coordinator@.rooms =~= Seq::empty());
        coordinator
    }

    fn find_room(&self, name: &String) -> (found: Option<usize>)
        ensures
            match found {
                Some(k) => k < self@.rooms.len() && self@.rooms[k as int].name == name@,
                None => !self@.has_room(name@),
            },
    {
        let mut k: usize = 0;
        while k < self.rooms.len()
            invariant
                k <= self.rooms.len(),
                forall|l: int| 0 <= l < k ==> (#[trigger] self@.rooms[l]).name != name@,
            decreases self.rooms.len() - k,
        {
            if self.rooms[k].name == *name {
                return Some(k);
            }
            k += 1;
        }
        None
    }

    fn find_entry(&self, room: RoomId) -> (found: Option<usize>)
        ensures
            match found {
                Some(k) => k < self@.rooms.len() && self@.rooms[k as int].room == room,
                None => !self@.has_entry(room),
            },
    {
        let mut k: usize = 0;
        while k < self.rooms.len()
            invariant
                k <= self.rooms.len(),
                forall|l: int| 0 <= l < k ==> (#[trigger] self@.rooms[l]).room != room,
            decreases self.rooms.len() - k,
        {
            if self.rooms[k].room == room {
                return Some(k);
            }
            k += 1;
        }
        None
    }

    /// Whether a session holds the name `username`.
    pub fn is_name_taken(&self, username: &Username) -> (taken: bool)
        requires
            self.wf(),
        ensures
            taken == self@.name_taken(username@),
    {
        self.clients.holds_name(username)
    }

    /// Whether `id` has joined the server.
    pub fn has_session(&self, id: SessionId) -> (known: bool)
        requires
            self.wf(),
        ensures
            known == self@.has_session(id),
    {
        self.clients.get(id).is_some()
    }

    /// The room that the session `id` is in, if it is in one.
    pub fn room_of(&self, id: SessionId) -> (room: Option<RoomId>)
        requires
            self.wf(),
        ensures
            room == if self@.has_session(id) {
                self@.sessions[self@.session_index(id)].room
            } else {
                None
            },
    {
        match self.clients.get(id) {
            Some(info) => {
                proof {
                    self@.lemma_session_index(self.clients.place(id));
                }
                info.room
            },
            None => None,
        }
    }

    /// How many sessions are in the room called `name`, if there is such a room.
    pub fn occupancy(&self, name: &RoomName) -> (size: Option<RoomSize>)
        requires
            self.wf(),
        ensures
            match size {
                Some(n) => self@.has_room(name@) && n == self@.rooms[self@.room_index(name@)].size,
                None => !self@.has_room(name@),
            },
    {
        match self.find_room(name) {
            Some(k) => {
                Some(self.rooms[k].size)
            },
            None => None,
        }
    }

    /// Whether the room with the handle `room` is in the directory.
    pub fn is_open(&self, room: RoomId) -> (open: bool)
        ensures
            open == self@.has_entry(room),
    {
        self.find_entry(room).is_some()
    }

    /// The number of sessions.
    pub fn session_count(&self) -> (n: usize)
        requires
            self.wf(),
        ensures
            n == self@.sessions.len(),
    {
        self.clients.len()
    }

    /// The number of rooms.
    pub fn room_count(&self) -> (n: usize)
        ensures
            n == self@.rooms.len(),
    {
        self.rooms.len()
    }

    /// Count one session less for `room`, and strike the room when it counts
    /// nobody.
    fn vacate(&mut self, room: RoomId)
        requires
            old(self).wf(),
            old(self)@.has_entry(room),
        ensures
            final(self)@ == (CoordinatorView { rooms: old(self)@.vacated(room), ..old(self)@ }),
            final(self).table() == old(self).table(),
    {
        match self.find_entry(room) {
            Some(k) => {
                if self.rooms[k].size <= 1 {
                    self.rooms.remove(k);
                    assert(self@.rooms =~= old(self)@.rooms.remove(k as int));
                } else {
                    self.rooms[k].size -= 1;
                    assert(self@.rooms =~= old(self)@.rooms.update(
                        k as int,
                        EntryView {
                            size: (old(self)@.rooms[k as int].size - 1) as nat,
                            ..old(self)@.rooms[k as int]
                        },
                    ));
                }
            },
            None => {},
        }
    }

    /// Strike the session `id` from the table, and tell its room.
    fn release(&mut self, id: SessionId) -> (effects: Vec<CoordinatorEffect>)
        requires
            old(self).wf(),
            !old(self).table().lacks(id),
        ensures
            final(self).wf(),
            0 <= old(self).table().place(id) < old(self)@.sessions.len(),
            old(self)@.sessions[old(self).table().place(id)].id == id,
            final(self)@ == old(self)@.released(old(self).table().place(id)).state,
            effects.deep_view() == old(self)@.released(old(self).table().place(id)).effects,
    {
        let ghost i = self.clients.place(id);
        let room = match self.clients.get(id) {
            Some(info) => info.room,
            None => None,
        };
        proof {
            self@.lemma_released_wf(i);
        }
        if let Some(room) = room {
            self.vacate(room);
        }
        let mut effects: Vec<CoordinatorEffect> = Vec::new();
        if let Some(gone) = self.clients.strike(id) {
            if let Some(room) = gone.room {
                effects.push(
                    CoordinatorEffect::ToRoom { room, message: RoomMsg::Drop(gone.username) },
                );
            }
        }
        assert(effects.deep_view() =~= old(self)@.released(i).effects);
        effects
    }

    /// A signal: the session that was linked under `tag` has died.
    pub fn signal(&mut self, tag: LinkTag) -> (effects: Vec<CoordinatorEffect>)
        requires
            old(self).wf(),
        ensures
            final(self).wf(),
            final(self)@ == old(self)@.signal(tag).state,
            effects.deep_view() == old(self)@.signal(tag).effects,
    {
        match self.clients.find_link(tag) {
            Some(id) => {
                proof {
                    // No other session is linked under the tag.
                    let i = self.clients.place(id);
                    assert(self@.is_first_linked(tag, i));
                    self@.lemma_first_linked(tag, i);
                }
                self.release(id)
            },
            None => {
                let effects: Vec<CoordinatorEffect> = Vec::new();
                assert(effects.deep_view() =~= Seq::empty());
                effects
            },
        }
    }

    /// Strike the session `id` from the table if it stands there.
    fn release_id(&mut self, id: SessionId) -> (effects: Vec<CoordinatorEffect>)
        requires
            old(self).wf(),
        ensures
            final(self).wf(),
            final(self)@ == old(self)@.released_id(id).state,
            effects.deep_view() == old(self)@.released_id(id).effects,
    {
        if self.clients.get(id).is_some() {
            proof {
                self@.lemma_session_index(self.clients.place(id));
            }
            self.release(id)
        } else {
            let effects: Vec<CoordinatorEffect> = Vec::new();
            assert(effects.deep_view() =~= Seq::empty());
            effects
        }
    }

    /// `JoinServer`: the sender is entered under `username` and linked under
    /// `link`, unless a session holds that name.
    pub fn join_server(&mut self, sender: SessionId, link: LinkTag, username: Username) -> (effects:
        Vec<CoordinatorEffect>)
        requires
            old(self).wf(),
        ensures
            final(self).wf(),
            final(self)@ == old(self)@.join_server(sender, link, username@).state,
            effects.deep_view() == old(self)@.join_server(sender, link, username@).effects,
    {
        proof {
            self@.lemma_join_server_wf(sender, link, username@);
        }
        if self.is_name_taken(&username) {
            return one_reply(sender, CoordinatorResponse::UsernameAlreadyTaken);
        }
        let mut effects = self.release_id(sender);
        let ghost cleared = self@;
        let ghost told = effects.deep_view();
        proof {
            if old(self)@.has_session(sender) {
                old(self)@.lemma_released_wf(old(self)@.session_index(sender));
            }
        }
        let mut more = self.signal(link);
        let ghost told_more = more.deep_view();
        proof {
            if cleared.is_linked(link) {
                cleared.lemma_linked_has_first(link);
                cleared.lemma_released_wf(cleared.first_linked(link));
            }
            assert(!self@.has_session(sender));
        }
        effects.append(&mut more);
        assert(effects.deep_view() =~= told + told_more);
        let ghost unlinked = self@;
        self.clients.enter(sender, link, username);
        effects.push(
            CoordinatorEffect::Reply { to: sender, response: CoordinatorResponse::ServerJoined },
        );
        assert(effects.deep_view() =~= told + told_more + crate::registry::reply(
            sender,
            CoordinatorResponse::ServerJoined,
        ));
        effects
    }

    /// `LeaveServer`.
    pub fn leave_server(&mut self, sender: SessionId) -> (effects: Vec<CoordinatorEffect>)
        requires
            old(self).wf(),
        ensures
            final(self).wf(),
            final(self)@ == old(self)@.leave_server(sender).state,
            effects.deep_view() == old(self)@.leave_server(sender).effects,
    {
        let mut effects = self.release_id(sender);
        let ghost told = effects.deep_view();
        effects.push(
            CoordinatorEffect::Reply { to: sender, response: CoordinatorResponse::ServerLeft },
        );
        assert(effects.deep_view() =~= told + crate::registry::reply(
            sender,
            CoordinatorResponse::ServerLeft,
        ));
        effects
    }

    /// The name of `sender`, if it may be given a room.
    fn applicant(&self, sender: SessionId) -> (res: Result<String, CoordinatorError>)
        requires
            self.wf(),
        ensures
            match res {
                Ok(username) => {
                    &&& self@.not_admitted(sender) is None
                    &&& self.table().place(sender) == self@.session_index(sender)
                    &&& 0 <= self@.session_index(sender) < self@.sessions.len()
                    &&& username@ == self@.sessions[self@.session_index(sender)].username
                    &&& !self.table().lacks(sender)
                },
                Err(error) => self@.not_admitted(sender) == Some(error),
            },
    {
        match self.clients.get(sender) {
            Some(info) => {
                proof {
                    self@.lemma_session_index(self.clients.place(sender));
                }
                if info.room.is_some() {
                    Err(CoordinatorError::AlreadyInRoom)
                } else {
                    Ok(info.username.clone())
                }
            },
            None => Err(CoordinatorError::UnknownSession),
        }
    }

    /// `CreateRoom`.
    pub fn create_room(&mut self, sender: SessionId, name: RoomName, client: SessionId) -> (res:
        Result<Vec<CoordinatorEffect>, CoordinatorError>)
        requires
            old(self).wf(),
        ensures
            final(self).wf(),
            agrees(res, final(self)@, old(self)@, old(self)@.create_room(sender, name@, client)),
    {
        if self.find_room(&name).is_some() {
            return Ok(one_reply(sender, CoordinatorResponse::RoomNameAlreadyTaken));
        }
        let username = match self.applicant(sender) {
            Ok(username) => username,
            Err(error) => {
                return Err(error);
            },
        };
        if self.next_room == u64::MAX {
            return Err(CoordinatorError::OutOfRooms);
        }
        proof {
            self@.lemma_create_room_wf(sender, name@, client);
        }
        let room = self.next_room;
        let member = Client::new(username, client);
        let mut effects: Vec<CoordinatorEffect> = Vec::new();
        effects.push(CoordinatorEffect::Spawn { room, name: name.clone() });
        effects.push(CoordinatorEffect::ToRoom { room, message: RoomMsg::JoinRoom(member) });
        effects.push(
            CoordinatorEffect::Reply { to: sender, response: CoordinatorResponse::RoomCreated(room) },
        );
        self.rooms.push(RoomEntry { name, room, size: 1 });
        self.clients.seat(sender, Some(room));
        self.next_room = room + 1;
        assert(self@.sessions =~= old(self)@.seated(old(self)@.session_index(sender), room));
        assert(self@.rooms =~= old(self)@.rooms.push(EntryView { name: name@, room, size: 1 }));
        assert(effects.deep_view() =~= old(self)@.create_room(sender, name@, client)->Ok_0.effects);
        Ok(effects)
    }

    /// `JoinRoom`.
    pub fn join_room(&mut self, sender: SessionId, name: RoomName, client: SessionId) -> (res:
        Result<Vec<CoordinatorEffect>, CoordinatorError>)
        requires
            old(self).wf(),
        ensures
            final(self).wf(),
            agrees(res, final(self)@, old(self)@, old(self)@.join_room(sender, name@, client)),
    {
        let k = match self.find_room(&name) {
            Some(k) => k,
            None => {
                return Ok(one_reply(sender, CoordinatorResponse::RoomDoesNotExist));
            },
        };
        let full = match self.max_client {
            Some(limit) => self.rooms[k].size >= limit,
            None => false,
        };
        if full {
            return Ok(one_reply(sender, CoordinatorResponse::RoomFull));
        }
        let username = match self.applicant(sender) {
            Ok(username) => username,
            Err(error) => {
                return Err(error);
            },
        };
        let sessions = self.clients.len();
        proof {
            self@.lemma_join_room_wf(sender, name@, client);
            // The asker is in no room, so the room counts fewer than there are
            // sessions.
            lemma_occupants_bound(self@.sessions, self@.rooms[k as int].room);
            assert(self@.sessions[self@.session_index(sender)].room != Some(
                self@.rooms[k as int].room,
            ));
            assert(self.rooms[k as int].size < sessions);
        }
        let room = self.rooms[k].room;
        let member = Client::new(username, client);
        let mut effects: Vec<CoordinatorEffect> = Vec::new();
        effects.push(CoordinatorEffect::ToRoom { room, message: RoomMsg::JoinRoom(member) });
        effects.push(
            CoordinatorEffect::Reply { to: sender, response: CoordinatorResponse::RoomJoined(room) },
        );
        self.rooms[k].size += 1;
        self.clients.seat(sender, Some(room));
        assert(self@.sessions =~= old(self)@.seated(old(self)@.session_index(sender), room));
        assert(self@.rooms =~= old(self)@.rooms.update(
            k as int,
            EntryView { size: old(self)@.rooms[k as int].size + 1, ..old(self)@.rooms[k as int] },
        ));
        assert(effects.deep_view() =~= old(self)@.join_room(sender, name@, client)->Ok_0.effects);
        Ok(effects)
    }

    /// `LeaveRoom`.
    pub fn leave_room(&mut self, sender: SessionId, client: SessionId) -> (res: Result<
        Vec<CoordinatorEffect>,
        CoordinatorError,
    >)
        requires
            old(self).wf(),
        ensures
            final(self).wf(),
            agrees(res, final(self)@, old(self)@, old(self)@.leave_room(sender, client)),
    {
        let (room, username) = match self.clients.get(sender) {
            Some(info) => {
                proof {
                    self@.lemma_session_index(self.clients.place(sender));
                }
                match info.room {
                    Some(room) => (room, info.username.clone()),
                    None => {
                        return Err(CoordinatorError::NotInRoom);
                    },
                }
            },
            None => {
                return Err(CoordinatorError::UnknownSession);
            },
        };
        proof {
            self@.lemma_leave_room_wf(sender, client);
        }
        let member = Client::new(username, client);
        let mut effects: Vec<CoordinatorEffect> = Vec::new();
        effects.push(CoordinatorEffect::ToRoom { room, message: RoomMsg::LeaveRoom(member) });
        effects.push(
            CoordinatorEffect::Reply { to: sender, response: CoordinatorResponse::RoomLeft },
        );
        self.vacate(room);
        let ghost emptied = self@;
        self.clients.seat(sender, None);
        assert(self@.sessions =~= old(self)@.sessions.update(
            old(self)@.session_index(sender),
            SessionView { room: None, ..old(self)@.sessions[old(self)@.session_index(sender)] },
        ));
        assert(self@.rooms =~= emptied.rooms);
        assert(effects.deep_view() =~= old(self)@.leave_room(sender, client)->Ok_0.effects);
        Ok(effects)
    }

    /// Handle one message from the mailbox.
    pub fn handle(&mut self, message: CoordinatorMsg) -> (res: Result<
        Vec<CoordinatorEffect>,
        CoordinatorError,
    >)
        requires
            old(self).wf(),
        ensures
            final(self).wf(),
            agrees(res, final(self)@, old(self)@, old(self)@.step(message@)),
    {
        match message {
            CoordinatorMsg::Signal(tag) => Ok(self.signal(tag)),
            CoordinatorMsg::Request { sender, link, data } => match data {
                CoordinatorRequest::JoinServer(username) => Ok(
                    self.join_server(sender, link, username),
                ),
                CoordinatorRequest::LeaveServer => Ok(self.leave_server(sender)),
                CoordinatorRequest::JoinRoom(name, client) => self.join_room(sender, name, client),
                CoordinatorRequest::CreateRoom(name, client) => self.create_room(
                    sender,
                    name,
                    client,
                ),
                CoordinatorRequest::LeaveRoom(client) => self.leave_room(sender, client),
            },
        }
    }
}

} // verus!
