//! The rules of the game that the server offers: two players take turns on a
//! board of three by three cells.

use crate::message::{is_full, GameAction, GameState, GameStateView, Username, SIDE};
use crate::room::{Client, ClientView, Context, ContextView, Room};
use std::time::Duration;
use vstd::prelude::*;

verus! {

/// How many players a game takes.
pub const SEATS: usize = 2;

/// `names` without every occurrence of `name`, the others in their order.
pub open spec fn without_name(names: Seq<Seq<char>>, name: Seq<char>) -> Seq<Seq<char>> {
    names.filter(|other: Seq<char>| other != name)
}

impl GameStateView {
    /// The snapshot after `username` took a seat: the game starts with the
    /// second player.
    pub open spec fn entered(self, username: Seq<char>) -> GameStateView {
        GameStateView {
            players: self.players.push(username),
            started: self.started || self.players.len() + 1 == SEATS,
            ..self
        }
    }

    /// The snapshot after `username` went away: the others stay, the game stops
    /// and the board is cleared.
    pub open spec fn vacated(self, username: Seq<char>) -> GameStateView {
        GameStateView {
            players: without_name(self.players, username),
            started: false,
            ..self.reset_game()
        }
    }

    /// Whether a mark can be asked for at `(x, y)`: the cell is on the board and
    /// both seats are taken.
    pub open spec fn can_place(self, x: usize, y: usize) -> bool {
        x < SIDE && y < SIDE && self.players.len() >= SEATS
    }

    /// The snapshot after `username` asked for the cell `(x, y)`: the mark is
    /// placed if the cell was empty, and the turn passes on either way. Where
    /// no mark can be asked for, nothing changes.
    pub open spec fn played(self, x: usize, y: usize, username: Seq<char>) -> GameStateView {
        if self.can_place(x, y) {
            let placed = self.place_node(x as int, y as int, username);
            GameStateView { turn: if placed.turn == 0 { 1 } else { 0 }, ..placed }
        } else {
            self
        }
    }

    /// The snapshot after a restart was asked for: a game that is won or drawn
    /// starts over, any other goes on.
    pub open spec fn restarted(self) -> GameStateView {
        if self.winner is Some || is_full(self.board) {
            self.reset_game()
        } else {
            self
        }
    }

    /// The snapshot after `username` sent `action`.
    pub open spec fn after_action(self, action: GameAction, username: Seq<char>) -> GameStateView {
        match action {
            GameAction::PlaceNode(x, y) => self.played(x, y, username),
            GameAction::Restart => self.restarted(),
        }
    }
}

/// The players of `names` other than `name`, in their order.
fn remove_name(names: &Vec<String>, name: &String) -> (rest: Vec<String>)
    ensures
        rest.deep_view() == without_name(names.deep_view(), name@),
{
    let mut rest: Vec<String> = Vec::new();
    let mut i: usize = 0;
    while i < names.len()
        invariant
            i <= names.len(),
            rest.deep_view() == without_name(names.deep_view().take(i as int), name@),
        decreases names.len() - i,
    {
        let ghost seen = names.deep_view().take(i as int + 1);
        proof {
            reveal(Seq::filter);
            assert(seen.drop_last() =~= names.deep_view().take(i as int));
        }
        if names[i] != *name {
            rest.push(names[i].clone());
        }
        i += 1;
    }
    assert(names.deep_view().take(i as int) =~= names.deep_view());
    rest
}

/// One game and the name of the room it is played in.
pub struct GameRoom {
    pub room_name: String,
    pub state: GameState,
}

impl GameRoom {
    /// The room has been told the snapshot `after` and nothing else has changed.
    pub open spec fn told(
        &self,
        after: &GameRoom,
        state: GameStateView,
        room: ContextView,
        room_after: ContextView,
    ) -> bool {
        &&& after.room_name == self.room_name
        &&& after.state@ == state
        &&& room_after == room.delivered(state, room.delta_to(state))
    }
}

impl Room for GameRoom {
    open spec fn wf(&self) -> bool {
        self.state.wf()
    }

    open spec fn fresh(&self, room_name: Seq<char>) -> bool {
        self.room_name@ == room_name && self.state@ == GameStateView::initial()
    }

    open spec fn updated(&self, room: ContextView, after: &Self, room_after: ContextView) -> bool {
        after == self && room_after == room
    }

    open spec fn joined(
        &self,
        client: ClientView,
        room: ContextView,
        after: &Self,
        room_after: ContextView,
    ) -> bool {
        self.told(after, self.state@.entered(client.username), room, room_after)
    }

    open spec fn left(
        &self,
        client: ClientView,
        room: ContextView,
        after: &Self,
        room_after: ContextView,
    ) -> bool {
        self.told(after, self.state@.vacated(client.username), room, room_after)
    }

    open spec fn dropped(
        &self,
        username: Seq<char>,
        room: ContextView,
        after: &Self,
        room_after: ContextView,
    ) -> bool {
        self.told(after, self.state@.vacated(username), room, room_after)
    }

    open spec fn acted(
        &self,
        client: ClientView,
        action: GameAction,
        room: ContextView,
        after: &Self,
        room_after: ContextView,
    ) -> bool {
        self.told(after, self.state@.after_action(action, client.username), room, room_after)
    }

    fn new(room_name: String) -> (room: Self) {
        GameRoom { room_name, state: GameState::default() }
    }

    /// The game does not move by itself.
    fn on_update(&mut self, delta_time: Duration, ctx: &mut Context) {
    }

    fn update_interval() -> (interval: Option<Duration>)
        ensures
            interval is None,
    {
        None
    }

    fn on_join(&mut self, client: Client, ctx: &mut Context) {
        self.state.players.push(client.username.clone());
        if self.state.players.len() == SEATS {
            self.state.started = true;
        }
        assert(self.state@.players =~= old(self).state@.players.push(client.username@));
        ctx.broadcast(&self.state);
    }

    fn on_leave(&mut self, client: Client, ctx: &mut Context) {
        self.state.players = remove_name(&self.state.players, &client.username);
        self.state.started = false;
        self.state.reset_game();
        ctx.broadcast(&self.state);
    }

    fn on_drop(&mut self, client_username: Username, ctx: &mut Context) {
        self.state.players = remove_name(&self.state.players, &client_username);
        self.state.started = false;
        self.state.reset_game();
        ctx.broadcast(&self.state);
    }

    fn on_msg(&mut self, client: Client, msg: GameAction, ctx: &mut Context) {
        match msg {
            GameAction::PlaceNode(x, y) => {
                if x < SIDE && y < SIDE && self.state.players.len() >= SEATS {
                    assert(self.state@.board[x as int].len() == self.state.board[x as int].len());
                    self.state.place_node(x, y, &client.username);
                    self.state.turn = if self.state.turn == 0 { 1 } else { 0 };
                }
            },
            GameAction::Restart => {
                if self.state.winner.is_some() || self.state.is_gameover() {
                    self.state.reset_game();
                }
            },
        }
        ctx.broadcast(&self.state);
    }

    fn max_client() -> (limit: Option<usize>)
        ensures
            limit == Some(SEATS),
    {
        Some(SEATS)
    }
}

} // verus!
