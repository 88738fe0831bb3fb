//! A room: its table of members, the snapshot it last sent, and the protocol by
//! which every member gets a whole snapshot first and differences afterwards.

use crate::delta::{wire, GameStateDelta};
use crate::message::{
    GameAction, GameState, GameStateView, MessageFromServer, MessageFromServerView, Username,
};
use std::time::Duration;
use vstd::prelude::*;

verus! {

/// The address of a client session.
pub type SessionId = u128;

/// A client as a room knows it: its name and where to send to.
#[derive(Debug)]
pub struct Client {
    pub username: Username,
    pub process: SessionId,
}

pub struct ClientView {
    pub username: Seq<char>,
    pub process: SessionId,
}

impl View for Client {
    type V = ClientView;

    open spec fn view(&self) -> ClientView {
        ClientView { username: self.username@, process: self.process }
    }
}

impl Client {
    pub fn new(username: Username, client_proc: SessionId) -> (client: Client)
        ensures
            client.username == username,
            client.process == client_proc,
    {
        Client { username, process: client_proc }
    }
}

impl Clone for Client {
    fn clone(&self) -> (copy: Client)
        ensures
            copy@ == self@,
    {
        Client { username: self.username.clone(), process: self.process }
    }
}

/// What a room finds in its mailbox.
#[derive(Debug)]
pub enum RoomMsg {
    JoinRoom(Client),
    LeaveRoom(Client),
    Drop(Username),
    Action(Client, GameAction),
}

pub enum RoomMsgView {
    JoinRoom(ClientView),
    LeaveRoom(ClientView),
    Drop(Seq<char>),
    Action(ClientView, GameAction),
}

impl View for RoomMsg {
    type V = RoomMsgView;

    open spec fn view(&self) -> RoomMsgView {
        match self {
            RoomMsg::JoinRoom(client) => RoomMsgView::JoinRoom(client@),
            RoomMsg::LeaveRoom(client) => RoomMsgView::LeaveRoom(client@),
            RoomMsg::Drop(username) => RoomMsgView::Drop(username@),
            RoomMsg::Action(client, action) => RoomMsgView::Action(client@, *action),
        }
    }
}

/// One line of a room's table of members.
#[derive(Debug)]
pub struct Member {
    username: String,
    process: SessionId,
    has_full_state: bool,
}

pub struct MemberView {
    pub username: Seq<char>,
    pub process: SessionId,
    /// Whether a whole snapshot has been sent to the member since it came in.
    pub has_full_state: bool,
}

impl View for Member {
    type V = MemberView;

    closed spec fn view(&self) -> MemberView {
        MemberView {
            username: self.username@,
            process: self.process,
            has_full_state: self.has_full_state,
        }
    }
}

impl DeepView for Member {
    type V = MemberView;

    open spec fn deep_view(&self) -> MemberView {
        self@
    }
}

/// A message on its way to one member.
#[derive(Debug)]
pub struct Delivery {
    pub username: String,
    pub to: SessionId,
    pub message: MessageFromServer,
}

pub struct DeliveryView {
    pub username: Seq<char>,
    pub to: SessionId,
    pub message: MessageFromServerView,
}

impl View for Delivery {
    type V = DeliveryView;

    open spec fn view(&self) -> DeliveryView {
        DeliveryView { username: self.username@, to: self.to, message: self.message@ }
    }
}

impl DeepView for Delivery {
    type V = DeliveryView;

    open spec fn deep_view(&self) -> DeliveryView {
        self@
    }
}

/// The member as it stands in the table right after it came in.
pub open spec fn newcomer(client: ClientView) -> MemberView {
    MemberView { username: client.username, process: client.process, has_full_state: false }
}

/// What one member is sent when `state` is broadcast: the difference if there
/// is one and the member holds the snapshot it starts from, else `state` whole.
pub open spec fn share_of(
    member: MemberView,
    state: GameStateView,
    delta: Option<Seq<u8>>,
) -> DeliveryView {
    DeliveryView {
        username: member.username,
        to: member.process,
        message: if member.has_full_state && delta is Some {
            MessageFromServerView::StateChanged(delta->0)
        } else {
            MessageFromServerView::State(state)
        },
    }
}

/// What a room holds while it handles one message.
pub struct ContextView {
    /// The members, in the order in which they came in.
    pub members: Seq<MemberView>,
    /// The snapshot that was broadcast last.
    pub checkpoint: Option<GameStateView>,
    /// The messages that wait to be sent, oldest first.
    pub outbox: Seq<DeliveryView>,
}

impl ContextView {
    pub open spec fn empty() -> ContextView {
        ContextView { members: Seq::empty(), checkpoint: None, outbox: Seq::empty() }
    }

    pub open spec fn has_member(self, username: Seq<char>) -> bool {
        exists|i: int| 0 <= i < self.members.len() && (#[trigger] self.members[i]).username == username
    }

    /// Where `username` stands in the table. Meaningful where it is a member.
    pub open spec fn member_index(self, username: Seq<char>) -> int {
        choose|i: int| 0 <= i < self.members.len() && (#[trigger] self.members[i]).username == username
    }

    /// No name stands twice in the table, and before the first broadcast nobody
    /// holds a snapshot.
    pub open spec fn wf(self) -> bool {
        &&& forall|i: int, j: int|
            0 <= i < j < self.members.len() ==> (#[trigger] self.members[i]).username != (
            #[trigger] self.members[j]).username
        &&& self.checkpoint is None ==> forall|i: int|
            0 <= i < self.members.len() ==> !(#[trigger] self.members[i]).has_full_state
    }

    /// The table after `client` came in: a new last line, or the line of that
    /// name replaced. Either way the member holds no snapshot yet.
    pub open spec fn inserted(self, client: ClientView) -> ContextView {
        ContextView {
            members: if self.has_member(client.username) {
                self.members.update(self.member_index(client.username), newcomer(client))
            } else {
                self.members.push(newcomer(client))
            },
            ..self
        }
    }

    /// The table without the line of `username`.
    pub open spec fn removed(self, username: Seq<char>) -> ContextView {
        ContextView {
            members: if self.has_member(username) {
                self.members.remove(self.member_index(username))
            } else {
                self.members
            },
            ..self
        }
    }

    /// The encoded difference from the checkpoint to `state`, where there is a
    /// checkpoint and the encoding reads back as that difference.
    pub open spec fn delta_to(self, state: GameStateView) -> Option<Seq<u8>> {
        match self.checkpoint {
            Some(previous) => wire(previous.delta_towards(state)),
            None => None,
        }
    }

    /// The room after `state` went out to everybody: each member got its share,
    /// holds a snapshot from now on, and `state` is the checkpoint.
    pub open spec fn delivered(self, state: GameStateView, delta: Option<Seq<u8>>) -> ContextView {
        ContextView {
            members: Seq::new(
                self.members.len(),
                |i: int| MemberView { has_full_state: true, ..self.members[i] },
            ),
            checkpoint: Some(state),
            outbox: self.outbox + Seq::new(
                self.members.len(),
                |i: int| share_of(self.members[i], state, delta),
            ),
        }
    }

    /// The room after `message` was addressed to `username` alone: one more
    /// message waits if that is a member, else nothing changed.
    pub open spec fn sent_to(self, username: Seq<char>, message: MessageFromServerView) -> ContextView {
        if self.has_member(username) {
            ContextView {
                outbox: self.outbox.push(
                    DeliveryView {
                        username,
                        to: self.members[self.member_index(username)].process,
                        message,
                    },
                ),
                ..self
            }
        } else {
            self
        }
    }

    /// The names and addresses of the members, without what they hold.
    pub open spec fn roster(self) -> Seq<ClientView> {
        Seq::new(
            self.members.len(),
            |i: int| ClientView { username: self.members[i].username, process: self.members[i].process },
        )
    }
}

pub open spec fn checkpoint_view(checkpoint: Option<GameState>) -> Option<GameStateView> {
    match checkpoint {
        Some(state) => Some(state@),
        None => None,
    }
}

pub open spec fn bytes_view(bytes: Option<Vec<u8>>) -> Option<Seq<u8>> {
    match bytes {
        Some(b) => Some(b@),
        None => None,
    }
}

/// What a room behaviour is handed while it handles one message: the table of
/// members, the checkpoint, and the messages it has asked to send.
pub struct Context {
    clients: Vec<Member>,
    prev_state: Option<GameState>,
    outbox: Vec<Delivery>,
}

impl View for Context {
    type V = ContextView;

    closed spec fn view(&self) -> ContextView {
        ContextView {
            members: self.clients.deep_view(),
            checkpoint: checkpoint_view(self.prev_state),
            outbox: self.outbox.deep_view(),
        }
    }
}

impl Context {
    pub open spec fn wf(&self) -> bool {
        self@.wf()
    }

    pub fn new() -> (ctx: Context)
        ensures
            ctx@ == ContextView::empty(),
            ctx.wf(),
    {
        let ctx = Context { clients: Vec::new(), prev_state: None, outbox: Vec::new() };
        assert(ctx@.members =~= Seq::empty());
        assert(ctx@.outbox =~= Seq::empty());
        ctx
    }

    /// The number of members.
    pub fn len(&self) -> (n: usize)
        ensures
            n == self@.members.len(),
    {
        self.clients.len()
    }

    fn find(&self, username: &String) -> (found: Option<usize>)
        ensures
            match found {
                Some(i) => i < self@.members.len() && self@.members[i as int].username
                    == username@,
                None => !self@.has_member(username@),
            },
    {
        let mut i: usize = 0;
        while i < self.clients.len()
            invariant
                i <= self.clients.len(),
                forall|k: int| 0 <= k < i ==> (#[trigger] self@.members[k]).username != username@,
            decreases self.clients.len() - i,
        {
            if self.clients[i].username == *username {
                return Some(i);
            }
            i += 1;
        }
        None
    }

    /// Whether `username` is a member.
    pub fn contains(&self, username: &Username) -> (found: bool)
        ensures
            found == self@.has_member(username@),
    {
        self.find(username).is_some()
    }

    /// Enter `client` in the table.
    pub fn insert(&mut self, client: &Client)
        requires
            old(self).wf(),
        ensures
            final(self)@ == old(self)@.inserted(client@),
            final(self).wf(),
    {
        let member = Member {
            username: client.username.clone(),
            process: client.process,
            has_full_state: false,
        };
        match self.find(&client.username) {
            Some(i) => {
                self.clients[i] = member;
                assert(self@.members =~= old(self)@.members.update(i as int, newcomer(client@)));
            },
            None => {
                self.clients.push(member);
                assert(self@.members =~= old(self)@.members.push(newcomer(client@)));
            },
        }
    }

    /// Send `state` to every member, as `delta` to those that hold the snapshot
    /// it starts from and whole to the others, and make `state` the checkpoint.
    /// `delta` is the encoded difference from the checkpoint to `state`, if there
    /// is any to be had.
    pub fn deliver(&mut self, state: &GameState, delta: Option<Vec<u8>>)
        requires
            old(self).wf(),
        ensures
            final(self)@ == old(self)@.delivered(state@, bytes_view(delta)),
            final(self).wf(),
    {
        let ghost before = self@;
        let ghost patch = bytes_view(delta);
        let mut i: usize = 0;
        while i < self.clients.len()
            invariant
                i <= self.clients.len(),
                patch == bytes_view(delta),
                self.clients.len() == before.members.len(),
                self.prev_state == old(self).prev_state,
                forall|k: int|
                    0 <= k < i ==> (#[trigger] self.clients[k])@ == (MemberView {
                        has_full_state: true,
                        ..before.members[k]
                    }),
                forall|k: int|
                    i <= k < self.clients.len() ==> (#[trigger] self.clients[k])@
                        == before.members[k],
                self.outbox.deep_view() == before.outbox + Seq::new(
                    i as nat,
                    |k: int| share_of(before.members[k], state@, patch),
                ),
            decreases self.clients.len() - i,
        {
            let ghost sent = self.outbox.deep_view();
            let message = match (&delta, self.clients[i].has_full_state) {
                (Some(bytes), true) => MessageFromServer::StateChanged(bytes.clone()),
                _ => MessageFromServer::State(state.clone()),
            };
            let delivery = Delivery {
                username: self.clients[i].username.clone(),
                to: self.clients[i].process,
                message,
            };
            self.outbox.push(delivery);
            self.clients[i].has_full_state = true;
            assert(self.outbox.deep_view() =~= sent.push(
                share_of(before.members[i as int], state@, patch),
            ));
            i += 1;
        }
        self.prev_state = Some(state.clone());
        assert(self@.members =~= before.delivered(state@, patch).members);
    }

    /// Send `state` to every member: the encoded difference from the checkpoint
    /// to those that hold the checkpoint, the whole of it to the others and, if
    /// the difference has no encoding that reads back as it, to all. `state` is
    /// the checkpoint afterwards.
    pub fn broadcast(&mut self, state: &GameState)
        requires
            old(self).wf(),
        ensures
            final(self)@ == old(self)@.delivered(state@, old(self)@.delta_to(state@)),
            final(self).wf(),
    {
        let delta = match &self.prev_state {
            Some(previous) => {
                let patch: GameStateDelta = previous.create_delta_towards(state);
                patch.to_wire()
            },
            None => None,
        };
        self.deliver(state, delta);
    }

    /// Address `message` to the member `username` alone. Says whether there is
    /// such a member; nothing is sent where there is none.
    pub fn send_to(&mut self, username: &Username, message: MessageFromServer) -> (sent: bool)
        requires
            old(self).wf(),
        ensures
            sent == old(self)@.has_member(username@),
            final(self)@ == old(self)@.sent_to(username@, message@),
            final(self).wf(),
    {
        match self.find(username) {
            Some(i) => {
                let delivery = Delivery {
                    username: username.clone(),
                    to: self.clients[i].process,
                    message,
                };
                self.outbox.push(delivery);
                assert(self@.outbox =~= old(self)@.outbox.push(delivery@));
                true
            },
            None => false,
        }
    }

    /// Hand over the messages that wait to be sent, oldest first.
    pub fn take_outbox(&mut self) -> (deliveries: Vec<Delivery>)
        ensures
            deliveries.deep_view() == old(self)@.outbox,
            final(self)@ == (ContextView { outbox: Seq::empty(), ..old(self)@ }),
    {
        let mut deliveries: Vec<Delivery> = Vec::new();
        std::mem::swap(&mut self.outbox, &mut deliveries);
        assert(self@.outbox =~= Seq::empty());
        deliveries
    }

    /// Strike `username` from the table.
    pub fn remove(&mut self, username: &Username)
        requires
            old(self).wf(),
        ensures
            final(self)@ == old(self)@.removed(username@),
            final(self).wf(),
    {
        match self.find(username) {
            Some(i) => {
                self.clients.remove(i);
                assert(self@.members =~= old(self)@.members.remove(i as int));
            },
            None => {},
        }
    }
}

/// The rules of the game that is played in a room.
///
/// The room calls one method for each message it handles. A method changes the
/// game as it sees fit and tells the members through `ctx`; it leaves the table
/// of members alone. For each method a relation of the same name says what an
/// implementation makes of the game and of the room.
pub trait Room: Sized {
    /// What holds of the rules between two messages.
    spec fn wf(&self) -> bool;

    /// Whether `new` may make these rules for the room called `room_name`.
    spec fn fresh(&self, room_name: Seq<char>) -> bool;

    /// Whether `on_join` may turn `self` into `after` and `room` into
    /// `room_after` when `client` has come in.
    spec fn joined(
        &self,
        client: ClientView,
        room: ContextView,
        after: &Self,
        room_after: ContextView,
    ) -> bool;

    /// The same of `on_leave`, when `client` has left.
    spec fn left(
        &self,
        client: ClientView,
        room: ContextView,
        after: &Self,
        room_after: ContextView,
    ) -> bool;

    /// The same of `on_drop`, when the connection of `username` was lost.
    spec fn dropped(
        &self,
        username: Seq<char>,
        room: ContextView,
        after: &Self,
        room_after: ContextView,
    ) -> bool;

    /// The same of `on_msg`, when `client` has sent `action`.
    spec fn acted(
        &self,
        client: ClientView,
        action: GameAction,
        room: ContextView,
        after: &Self,
        room_after: ContextView,
    ) -> bool;

    /// The same of `on_update`, when time has passed.
    spec fn updated(&self, room: ContextView, after: &Self, room_after: ContextView) -> bool;

    fn new(room_name: String) -> (room: Self)
        ensures
            room.wf(),
            room.fresh(room_name@),
    ;

    fn on_join(&mut self, client: Client, ctx: &mut Context)
        requires
            old(self).wf(),
            old(ctx).wf(),
        ensures
            final(self).wf(),
            final(ctx).wf(),
            final(ctx)@.roster() == old(ctx)@.roster(),
            old(self).joined(client@, old(ctx)@, final(self), final(ctx)@),
    ;

    fn on_leave(&mut self, client: Client, ctx: &mut Context)
        requires
            old(self).wf(),
            old(ctx).wf(),
        ensures
            final(self).wf(),
            final(ctx).wf(),
            final(ctx)@.roster() == old(ctx)@.roster(),
            old(self).left(client@, old(ctx)@, final(self), final(ctx)@),
    ;

    fn on_drop(&mut self, client_username: Username, ctx: &mut Context)
        requires
            old(self).wf(),
            old(ctx).wf(),
        ensures
            final(self).wf(),
            final(ctx).wf(),
            final(ctx)@.roster() == old(ctx)@.roster(),
            old(self).dropped(client_username@, old(ctx)@, final(self), final(ctx)@),
    ;

    fn on_msg(&mut self, client: Client, msg: GameAction, ctx: &mut Context)
        requires
            old(self).wf(),
            old(ctx).wf(),
        ensures
            final(self).wf(),
            final(ctx).wf(),
            final(ctx)@.roster() == old(ctx)@.roster(),
            old(self).acted(client@, msg, old(ctx)@, final(self), final(ctx)@),
    ;

    /// Called when `delta_time` has passed, for rules that name an interval.
    fn on_update(&mut self, delta_time: Duration, ctx: &mut Context)
        requires
            old(self).wf(),
            old(ctx).wf(),
        ensures
            final(self).wf(),
            final(ctx).wf(),
            final(ctx)@.roster() == old(ctx)@.roster(),
            old(self).updated(old(ctx)@, final(self), final(ctx)@),
    ;

    /// How often `on_update` is to be called: never, unless an implementation
    /// says otherwise.
    fn update_interval() -> (interval: Option<Duration>)
        default_ensures
            interval is None,
    {
        None
    }

    /// How many members a room takes: any number, unless an implementation says
    /// otherwise.
    fn max_client() -> (limit: Option<usize>)
        default_ensures
            limit is None,
    {
        None
    }
}

/// Whether `username` stands in `roster`.
pub open spec fn enrolled(roster: Seq<ClientView>, username: Seq<char>) -> bool {
    exists|i: int| 0 <= i < roster.len() && (#[trigger] roster[i]).username == username
}

/// Where `username` stands in `roster`. Meaningful where it does.
pub open spec fn enrolled_at(roster: Seq<ClientView>, username: Seq<char>) -> int {
    choose|i: int| 0 <= i < roster.len() && (#[trigger] roster[i]).username == username
}

/// `roster` without `username`.
pub open spec fn struck(roster: Seq<ClientView>, username: Seq<char>) -> Seq<ClientView> {
    if enrolled(roster, username) {
        roster.remove(enrolled_at(roster, username))
    } else {
        roster
    }
}

/// The names and addresses of the members after `message`, given those before.
pub open spec fn roster_after(roster: Seq<ClientView>, message: RoomMsgView) -> Seq<ClientView> {
    match message {
        RoomMsgView::JoinRoom(client) => if enrolled(roster, client.username) {
            roster.update(enrolled_at(roster, client.username), client)
        } else {
            roster.push(client)
        },
        RoomMsgView::LeaveRoom(client) => struck(roster, client.username),
        RoomMsgView::Drop(username) => struck(roster, username),
        RoomMsgView::Action(_, _) => roster,
    }
}

/// Whether a room goes on after `message`, given the members that the message
/// leaves.
pub open spec fn stays_open(message: RoomMsgView, roster_after: Seq<ClientView>) -> bool {
    match message {
        RoomMsgView::LeaveRoom(_) | RoomMsgView::Drop(_) => roster_after.len() > 0,
        _ => true,
    }
}

/// Who the members are after a message depends on who they were and on the
/// message, on nothing else that the room holds.
pub proof fn lemma_roster_after(room: ContextView, message: RoomMsgView)
    requires
        room.wf(),
    ensures
        table_after(room, message).roster() == roster_after(room.roster(), message),
{
    let roster = room.roster();
    assert forall|username: Seq<char>|
        room.has_member(username) == enrolled(roster, username) && (room.has_member(username)
            ==> room.member_index(username) == enrolled_at(roster, username)) by {
        if room.has_member(username) {
            let i = room.member_index(username);
            assert(roster[i].username == username);
        }
        if enrolled(roster, username) {
            let j = enrolled_at(roster, username);
            assert(room.members[j].username == username);
        }
    }
}

/// The table of members that `message` leaves, before the rules are asked.
pub open spec fn table_after(room: ContextView, message: RoomMsgView) -> ContextView {
    match message {
        RoomMsgView::JoinRoom(client) => room.inserted(client),
        RoomMsgView::LeaveRoom(client) => room.removed(client.username),
        RoomMsgView::Drop(username) => room.removed(username),
        RoomMsgView::Action(_, _) => room,
    }
}

/// What handling `message` makes of the rules and of the room: the table is
/// brought up to date, then the rules are asked, whoever is left to be told.
pub open spec fn handled<T: Room>(
    rules: &T,
    room: ContextView,
    message: RoomMsgView,
    rules_after: &T,
    room_after: ContextView,
) -> bool {
    let table = table_after(room, message);
    match message {
        RoomMsgView::JoinRoom(client) => rules.joined(client, table, rules_after, room_after),
        RoomMsgView::LeaveRoom(client) => rules.left(client, table, rules_after, room_after),
        RoomMsgView::Drop(username) => rules.dropped(username, table, rules_after, room_after),
        RoomMsgView::Action(client, action) => rules.acted(
            client,
            action,
            table,
            rules_after,
            room_after,
        ),
    }
}

/// What a room has to show for one message.
pub struct RoomStep {
    /// The messages to send, oldest first.
    pub deliveries: Vec<Delivery>,
    /// Whether the room goes on. A room that does not is to be torn down.
    pub running: bool,
}

/// One room: the rules of its game and what the rules are handed.
pub struct RoomProcess<T: Room> {
    ctx: Context,
    room: T,
}

impl<T: Room> RoomProcess<T> {
    pub closed spec fn context(&self) -> ContextView {
        self.ctx@
    }

    pub closed spec fn rules(&self) -> &T {
        &self.room
    }

    /// Between two messages the table is sound, the rules are, and nothing
    /// waits to be sent.
    pub open spec fn wf(&self) -> bool {
        &&& self.context().wf()
        &&& self.rules().wf()
        &&& self.context().outbox.len() == 0
    }

    /// The room called `room_name`, without members.
    pub fn new(room_name: String) -> (process: Self)
        ensures
            process.wf(),
            process.context() == ContextView::empty(),
            process.rules().fresh(room_name@),
    {
        RoomProcess { ctx: Context::new(), room: T::new(room_name) }
    }

    /// Let the rules know that `delta_time` has passed. The members stay who
    /// they are, and the room goes on.
    pub fn tick(&mut self, delta_time: Duration) -> (step: RoomStep)
        requires
            old(self).wf(),
        ensures
            final(self).wf(),
            final(self).context().roster() == old(self).context().roster(),
            step.running,
            old(self).rules().updated(
                old(self).context(),
                final(self).rules(),
                ContextView { outbox: step.deliveries.deep_view(), ..final(self).context() },
            ),
    {
        self.room.on_update(delta_time, &mut self.ctx);
        let deliveries = self.ctx.take_outbox();
        RoomStep { deliveries, running: true }
    }

    /// The number of members.
    pub fn len(&self) -> (n: usize)
        ensures
            n == self.context().members.len(),
    {
        self.ctx.len()
    }

    /// The rules of the game, as the last message left them.
    pub fn room(&self) -> (rules: &T)
        ensures
            rules == self.rules(),
    {
        &self.room
    }

    /// Handle one message from the mailbox.
    pub fn handle(&mut self, message: RoomMsg) -> (step: RoomStep)
        requires
            old(self).wf(),
        ensures
            final(self).wf(),
            final(self).context().roster() == roster_after(
                old(self).context().roster(),
                message@,
            ),
            step.running == stays_open(message@, final(self).context().roster()),
            handled(
                old(self).rules(),
                old(self).context(),
                message@,
                final(self).rules(),
                ContextView { outbox: step.deliveries.deep_view(), ..final(self).context() },
            ),
    {
        proof {
            lemma_roster_after(self.ctx@, message@);
        }
        let mut running = true;
        match message {
            RoomMsg::JoinRoom(client) => {
                self.ctx.insert(&client);
                self.room.on_join(client, &mut self.ctx);
            },
            RoomMsg::LeaveRoom(client) => {
                self.ctx.remove(&client.username);
                self.room.on_leave(client, &mut self.ctx);
                if self.ctx.len() == 0 {
                    running = false;
                }
            },
            RoomMsg::Drop(username) => {
                self.ctx.remove(&username);
                self.room.on_drop(username, &mut self.ctx);
                if self.ctx.len() == 0 {
                    running = false;
                }
            },
            RoomMsg::Action(client, action) => {
                self.room.on_msg(client, action, &mut self.ctx);
            },
        }
        let ghost room_after = self.ctx@;
        let deliveries = self.ctx.take_outbox();
        assert(room_after == (ContextView { outbox: deliveries.deep_view(), ..self.ctx@ }));
        RoomStep { deliveries, running }
    }
}

/// One thing that is done to a room's table or sent through it.
pub enum ContextOp {
    Insert(ClientView),
    Remove(Seq<char>),
    /// A snapshot goes to everybody, with the encoded difference if there is one.
    Broadcast(GameStateView, Option<Seq<u8>>),
    SendTo(Seq<char>, MessageFromServerView),
}

impl ContextView {
    pub open spec fn apply(self, op: ContextOp) -> ContextView {
        match op {
            ContextOp::Insert(client) => self.inserted(client),
            ContextOp::Remove(username) => self.removed(username),
            ContextOp::Broadcast(state, delta) => self.delivered(state, delta),
            ContextOp::SendTo(username, message) => self.sent_to(username, message),
        }
    }

    /// The room after `ops`, first to last, with everything that was sent still
    /// in the outbox.
    pub open spec fn run(self, ops: Seq<ContextOp>) -> ContextView
        decreases ops.len(),
    {
        if ops.len() == 0 {
            self
        } else {
            self.run(ops.drop_last()).apply(ops.last())
        }
    }

    /// Every member that is marked as holding a snapshot was sent one.
    pub open spec fn marks_are_earned(self) -> bool {
        forall|i: int|
            0 <= i < self.members.len() && (#[trigger] self.members[i]).has_full_state
                ==> exists|j: int|
                0 <= j < self.outbox.len() && (#[trigger] self.outbox[j]).username
                    == self.members[i].username && self.outbox[j].message is State
    }
}

/// In `log`, whoever is sent a difference was sent a whole snapshot before.
pub open spec fn full_state_first(log: Seq<DeliveryView>) -> bool {
    forall|i: int|
        0 <= i < log.len() && (#[trigger] log[i]).message is StateChanged ==> exists|j: int|
            0 <= j < i && (#[trigger] log[j]).username == log[i].username
                && log[j].message is State
}

/// Whether `op` addresses a difference to one member alone.
pub open spec fn is_private_delta(op: ContextOp) -> bool {
    op matches ContextOp::SendTo(_, message) && message is StateChanged
}

proof fn lemma_step_keeps_order(room: ContextView, op: ContextOp)
    requires
        full_state_first(room.outbox),
        room.marks_are_earned(),
        !is_private_delta(op),
    ensures
        full_state_first(room.apply(op).outbox),
        room.apply(op).marks_are_earned(),
{
    let next = room.apply(op);
    match op {
        ContextOp::Insert(client) => {},
        ContextOp::Remove(username) => {
            assert(next.outbox == room.outbox);
        },
        ContextOp::Broadcast(state, delta) => {
            let sent = room.outbox.len() as int;
            assert forall|i: int|
                0 <= i < next.outbox.len() && (
                #[trigger] next.outbox[i]).message is StateChanged implies exists|j: int|
                0 <= j < i && (#[trigger] next.outbox[j]).username == next.outbox[i].username
                    && next.outbox[j].message is State by {
                if i < sent {
                    let j = choose|j: int|
                        0 <= j < i && (#[trigger] room.outbox[j]).username
                            == room.outbox[i].username && room.outbox[j].message is State;
                    assert(next.outbox[j] == room.outbox[j]);
                } else {
                    let member = room.members[i - sent];
                    let j = choose|j: int|
                        0 <= j < room.outbox.len() && (#[trigger] room.outbox[j]).username
                            == member.username && room.outbox[j].message is State;
                    assert(next.outbox[j] == room.outbox[j]);
                }
            }
            assert forall|i: int|
                0 <= i < next.members.len() && (
                #[trigger] next.members[i]).has_full_state implies exists|j: int|
                0 <= j < next.outbox.len() && (#[trigger] next.outbox[j]).username
                    == next.members[i].username && next.outbox[j].message is State by {
                let member = room.members[i];
                if member.has_full_state {
                    let j = choose|j: int|
                        0 <= j < room.outbox.len() && (#[trigger] room.outbox[j]).username
                            == member.username && room.outbox[j].message is State;
                    assert(next.outbox[j] == room.outbox[j]);
                } else {
                    assert(next.outbox[sent + i] == share_of(member, state, delta));
                }
            }
        },
        ContextOp::SendTo(username, message) => {
            if room.has_member(username) {
                assert forall|i: int|
                    0 <= i < next.outbox.len() && (
                    #[trigger] next.outbox[i]).message is StateChanged implies exists|j: int|
                    0 <= j < i && (#[trigger] next.outbox[j]).username
                        == next.outbox[i].username && next.outbox[j].message is State by {
                    assert(next.outbox[i] == room.outbox[i]);
                    let j = choose|j: int|
                        0 <= j < i && (#[trigger] room.outbox[j]).username
                            == room.outbox[i].username && room.outbox[j].message is State;
                    assert(next.outbox[j] == room.outbox[j]);
                }
                assert forall|i: int|
                    0 <= i < next.members.len() && (
                    #[trigger] next.members[i]).has_full_state implies exists|j: int|
                    0 <= j < next.outbox.len() && (#[trigger] next.outbox[j]).username
                        == next.members[i].username && next.outbox[j].message is State by {
                    let j = choose|j: int|
                        0 <= j < room.outbox.len() && (#[trigger] room.outbox[j]).username
                            == room.members[i].username && room.outbox[j].message is State;
                    assert(next.outbox[j] == room.outbox[j]);
                }
            }
        },
    }
}

/// A member is never sent a difference before it was sent a whole snapshot:
/// this holds of everything a room sends, whatever is done to its table and
/// whatever is broadcast, as long as no difference is addressed to one member
/// alone.
pub proof fn lemma_full_state_before_delta(ops: Seq<ContextOp>)
    requires
        forall|k: int| 0 <= k < ops.len() ==> !is_private_delta(#[trigger] ops[k]),
    ensures
        full_state_first(ContextView::empty().run(ops).outbox),
        ContextView::empty().run(ops).marks_are_earned(),
    decreases ops.len(),
{
    if ops.len() > 0 {
        let before = ops.drop_last();
        lemma_full_state_before_delta(before);
        lemma_step_keeps_order(ContextView::empty().run(before), ops.last());
    }
}

} // verus!
