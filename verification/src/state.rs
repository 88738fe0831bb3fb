//! What a player's program knows: who it is, which room it asked for, and its
//! copy of the game.

use crate::delta::{decoded_delta, DeltaError, GameStateDelta};
use crate::message::{
    is_full, GameState, GameStateView, MessageFromServer, MessageFromServerView, Username, EMPTY,
};
use vstd::prelude::*;
use vstd::string::*;

verus! {

/// What a player's program knows.
#[derive(Debug)]
pub struct State {
    pub username: Option<Username>,
    pub room: Option<String>,
    pub game_state: GameState,
}

pub struct StateView {
    pub username: Option<Seq<char>>,
    pub room: Option<Seq<char>>,
    pub game_state: GameStateView,
}

pub open spec fn text_view(text: Option<String>) -> Option<Seq<char>> {
    match text {
        Some(s) => Some(s@),
        None => None,
    }
}

impl View for State {
    type V = StateView;

    open spec fn view(&self) -> StateView {
        StateView {
            username: text_view(self.username),
            room: text_view(self.room),
            game_state: self.game_state@,
        }
    }
}

/// Why the program cannot go on with what the server sent.
#[derive(Debug, Clone, Copy, PartialEq, Eq, Structural)]
pub enum StateError {
    /// The bytes of a difference are not the encoding of any.
    BadPatch,
    /// The copy of the game is not one to play on: it names a player that is
    /// not there, the program does not know its own name, a cell holds an
    /// unknown mark, or the board lacks a cell.
    Inconsistent,
}

/// How a cell is drawn, with the bar to its left.
pub open spec fn cell_text(cell: i8) -> Option<Seq<char>> {
    if cell == EMPTY {
        Some("| "@)
    } else if cell == 0 {
        Some("|X"@)
    } else if cell == 1 {
        Some("|O"@)
    } else {
        None
    }
}

/// The cells of a row drawn one after the other, if each can be drawn.
pub open spec fn cells_text(row: Seq<i8>) -> Option<Seq<char>>
    decreases row.len(),
{
    if row.len() == 0 {
        Some(Seq::empty())
    } else {
        match (cells_text(row.drop_last()), cell_text(row.last())) {
            (Some(left), Some(last)) => Some(left + last),
            _ => None,
        }
    }
}

/// The line that separates two rows of the board.
pub open spec fn rule() -> Seq<char> {
    "–––––––"@
}

/// The rows of a board, each closed by a bar and followed by a rule, if each
/// cell can be drawn.
pub open spec fn rows_text(board: Seq<Seq<i8>>) -> Option<Seq<Seq<char>>>
    decreases board.len(),
{
    if board.len() == 0 {
        Some(Seq::empty())
    } else {
        match (rows_text(board.drop_last()), cells_text(board.last())) {
            (Some(above), Some(cells)) => Some(above.push(cells + "|"@).push(rule())),
            _ => None,
        }
    }
}

impl StateView {
    /// The player at `index`, if the program knows its own name and there is
    /// such a player.
    pub open spec fn player(self, index: int) -> Option<Seq<char>> {
        if self.username is Some && 0 <= index < self.game_state.players.len() {
            Some(self.game_state.players[index])
        } else {
            None
        }
    }

    pub open spec fn is_me(self, name: Seq<char>) -> bool {
        self.username == Some(name)
    }

    /// What is said above the board of a game that has started: who won, that
    /// nobody did, or whose turn it is.
    pub open spec fn headline(self) -> Option<Seq<Seq<char>>> {
        let game = self.game_state;
        if game.winner is Some {
            match self.player(game.winner->0 as int) {
                Some(name) => Some(
                    seq![
                        if self.is_me(name) {
                            "You won!"@
                        } else {
                            name + " won!"@
                        },
                        "type command \"restart\" to restart"@,
                    ],
                ),
                None => None,
            }
        } else if is_full(game.board) {
            Some(seq!["Tied!"@, "type command \"restart\" to restart"@])
        } else {
            match self.player(game.turn as int) {
                Some(name) => Some(
                    seq![
                        if self.is_me(name) {
                            "Your turn!"@
                        } else {
                            name + "'s turn!"@
                        },
                    ],
                ),
                None => None,
            }
        }
    }

    /// The lines that show the game, where it can be shown.
    pub open spec fn report(self) -> Option<Seq<Seq<char>>> {
        if !self.game_state.started {
            Some(seq!["Waiting for players..."@])
        } else {
            match (self.headline(), rows_text(self.game_state.board)) {
                (Some(head), Some(rows)) => Some(head.push(rule()) + rows.push(Seq::empty())),
                _ => None,
            }
        }
    }

    /// Whether it is the turn of this program's player.
    pub open spec fn is_my_turn(self) -> bool {
        self.is_me(self.game_state.players[self.game_state.turn as int])
    }
}

fn draw_row(row: &Vec<i8>) -> (line: Option<String>)
    ensures
        text_view(line) == cells_text(row@),
{
    let mut line = String::new();
    let mut j: usize = 0;
    while j < row.len()
        invariant
            j <= row.len(),
            cells_text(row@.take(j as int)) == Some(line@),
        decreases row.len() - j,
    {
        let ghost seen = row@.take(j as int + 1);
        assert(seen.drop_last() =~= row@.take(j as int));
        let cell = row[j];
        if cell == EMPTY {
            line.append("| ");
        } else if cell == 0 {
            line.append("|X");
        } else if cell == 1 {
            line.append("|O");
        } else {
            proof {
                lemma_undrawable(row@, j as int);
            }
            return None;
        }
        j += 1;
    }
    assert(row@.take(j as int) =~= row@);
    Some(line)
}

/// A row with a cell that cannot be drawn cannot be drawn.
proof fn lemma_undrawable(row: Seq<i8>, j: int)
    requires
        0 <= j < row.len(),
        cell_text(row[j]) is None,
    ensures
        cells_text(row) is None,
    decreases row.len(),
{
    if j < row.len() - 1 {
        lemma_undrawable(row.drop_last(), j);
    }
}

/// A board with a row that cannot be drawn cannot be drawn.
proof fn lemma_undrawable_row(board: Seq<Seq<i8>>, i: int)
    requires
        0 <= i < board.len(),
        cells_text(board[i]) is None,
    ensures
        rows_text(board) is None,
    decreases board.len(),
{
    if i < board.len() - 1 {
        lemma_undrawable_row(board.drop_last(), i);
    }
}

pub open spec fn lines_view(lines: Option<Vec<String>>) -> Option<Seq<Seq<char>>> {
    match lines {
        Some(v) => Some(v.deep_view()),
        None => None,
    }
}

fn draw_board(board: &Vec<Vec<i8>>, lines: &mut Vec<String>) -> (drawn: bool)
    ensures
        drawn == rows_text(board.deep_view()) is Some,
        drawn ==> final(lines).deep_view() == old(lines).deep_view() + rows_text(
            board.deep_view(),
        )->0,
{
    let ghost rows = board.deep_view();
    let ghost above = lines.deep_view();
    let mut i: usize = 0;
    while i < board.len()
        invariant
            i <= board.len(),
            rows == board.deep_view(),
            rows_text(rows.take(i as int)) is Some,
            lines.deep_view() == above + rows_text(rows.take(i as int))->0,
        decreases board.len() - i,
    {
        let ghost seen = rows.take(i as int + 1);
        let ghost so_far = lines.deep_view();
        assert(seen.drop_last() =~= rows.take(i as int));
        assert(seen.last() == board[i as int]@);
        match draw_row(&board[i]) {
            Some(cells) => {
                let row_line = cells.concat("|");
                lines.push(row_line);
                lines.push(String::from_str("–––––––"));
                assert(lines.deep_view() =~= so_far.push(cells@ + "|"@).push(rule()));
            },
            None => {
                proof {
                    lemma_undrawable_row(rows, i as int);
                }
                return false;
            },
        }
        i += 1;
    }
    assert(rows.take(i as int) =~= rows);
    true
}

impl State {
    /// What a program knows before it has heard of anything.
    pub fn new() -> (state: State)
        ensures
            state@ == (StateView {
                username: None,
                room: None,
                game_state: GameStateView::initial(),
            }),
    {
        State { username: None, room: None, game_state: GameState::default() }
    }

    fn is_me(&self, name: &String) -> (me: bool)
        ensures
            me == self@.is_me(name@),
    {
        match &self.username {
            Some(username) => *username == *name,
            None => false,
        }
    }

    fn player(&self, index: usize) -> (name: Option<&String>)
        ensures
            match name {
                Some(n) => self@.player(index as int) == Some(n@),
                None => self@.player(index as int) is None,
            },
    {
        if self.username.is_some() && index < self.game_state.players.len() {
            Some(&self.game_state.players[index])
        } else {
            None
        }
    }

    fn headline(&self) -> (lines: Option<Vec<String>>)
        ensures
            lines_view(lines) == self@.headline(),
    {
        let mut lines: Vec<String> = Vec::new();
        if let Some(winner) = self.game_state.winner {
            if winner < 0 {
                return None;
            }
            match self.player(winner as usize) {
                Some(name) => {
                    if self.is_me(name) {
                        lines.push(String::from_str("You won!"));
                    } else {
                        lines.push(name.clone().concat(" won!"));
                    }
                    lines.push(String::from_str("type command \"restart\" to restart"));
                    Some(lines)
                },
                None => None,
            }
        } else if self.game_state.is_gameover() {
            lines.push(String::from_str("Tied!"));
            lines.push(String::from_str("type command \"restart\" to restart"));
            Some(lines)
        } else {
            match self.player(self.game_state.turn as usize) {
                Some(name) => {
                    if self.is_me(name) {
                        lines.push(String::from_str("Your turn!"));
                    } else {
                        lines.push(name.clone().concat("'s turn!"));
                    }
                    assert(lines.deep_view() =~= self@.headline()->0);
                    Some(lines)
                },
                None => None,
            }
        }
    }

    /// The lines that show the game: that players are waited for, or the
    /// state of play above the board. Nothing where the game cannot be shown.
    pub fn print_game_state(&self) -> (lines: Option<Vec<String>>)
        ensures
            lines_view(lines) == self@.report(),
    {
        if !self.game_state.started {
            let mut lines: Vec<String> = Vec::new();
            lines.push(String::from_str("Waiting for players..."));
            return Some(lines);
        }
        let mut lines = match self.headline() {
            Some(lines) => lines,
            None => {
                return None;
            },
        };
        lines.push(String::from_str("–––––––"));
        if !draw_board(&self.game_state.board, &mut lines) {
            return None;
        }
        let ghost drawn = lines.deep_view();
        lines.push(String::new());
        assert(lines.deep_view() =~= drawn.push(Seq::empty()));
        Some(lines)
    }

    /// Whether the cell `(x, y)` is empty.
    pub fn can_place_at(&self, x: usize, y: usize) -> (free: bool)
        requires
            x < self.game_state.board.len(),
            y < self.game_state.board[x as int].len(),
        ensures
            free == (self@.game_state.board[x as int][y as int] == EMPTY),
    {
        self.game_state.board[x][y] == EMPTY
    }

    /// Whether it is the turn of this program's player.
    pub fn is_my_turn(&self) -> (mine: bool)
        requires
            self.username is Some,
            self.game_state.turn < self.game_state.players.len(),
        ensures
            mine == self@.is_my_turn(),
    {
        let turn = &self.game_state.players[self.game_state.turn as usize];
        self.is_me(turn)
    }

    /// Make the changes that `bytes` encode on the copy of the game. Bytes
    /// that encode no difference are refused and change nothing.
    pub fn apply_patch(&mut self, bytes: Vec<u8>) -> (res: Result<(), DeltaError>)
        ensures
            match decoded_delta(bytes@) {
                Some(patch) => res is Ok && final(self)@ == (StateView {
                    game_state: old(self)@.game_state.patched(patch),
                    ..old(self)@
                }),
                None => res == Err::<(), DeltaError>(DeltaError::Decode) && final(self)@ == old(
                    self,
                )@,
            },
    {
        match GameStateDelta::from_bytes(bytes.as_slice()) {
            Ok(patch) => {
                self.game_state.apply_patch(patch);
                Ok(())
            },
            Err(error) => Err(error),
        }
    }
}

/// The name by which a message that carries no game is shown.
pub open spec fn label(message: MessageFromServerView) -> Seq<char> {
    match message {
        MessageFromServerView::ServerJoined => "ServerJoined"@,
        MessageFromServerView::UsernameAlreadyTaken => "UsernameAlreadyTaken"@,
        MessageFromServerView::RoomJoined => "RoomJoined"@,
        MessageFromServerView::RoomFull => "RoomFull"@,
        MessageFromServerView::RoomDoesNotExist => "RoomDoesNotExist"@,
        MessageFromServerView::RoomCreated => "RoomCreated"@,
        MessageFromServerView::RoomNameAlreadyTaken => "RoomNameAlreadyTaken"@,
        MessageFromServerView::StateChanged(_) => "StateChanged"@,
        MessageFromServerView::State(_) => "State"@,
    }
}

/// What the program knows after a message, and the lines it shows or the
/// reason why it cannot go on.
pub struct Received {
    pub state: StateView,
    pub shown: Result<Seq<Seq<char>>, StateError>,
}

impl StateView {
    /// The lines that show the game, or the reason why there are none.
    pub open spec fn shown(self) -> Result<Seq<Seq<char>>, StateError> {
        match self.report() {
            Some(lines) => Ok(lines),
            None => Err(StateError::Inconsistent),
        }
    }

    /// What the program makes of a message from the server. A snapshot takes
    /// the place of the copy of the game and a difference is applied to it,
    /// and the game is shown; a refusal makes the program forget the room or
    /// the name that it had asked for; any other message is only shown.
    pub open spec fn received(self, message: MessageFromServerView) -> Received {
        match message {
            MessageFromServerView::State(game_state) => {
                let state = StateView { game_state, ..self };
                Received { state, shown: state.shown() }
            },
            MessageFromServerView::StateChanged(bytes) => match decoded_delta(bytes) {
                Some(patch) => {
                    let state = StateView { game_state: self.game_state.patched(patch), ..self };
                    Received { state, shown: state.shown() }
                },
                None => Received { state: self, shown: Err(StateError::BadPatch) },
            },
            MessageFromServerView::RoomFull
            | MessageFromServerView::RoomDoesNotExist
            | MessageFromServerView::RoomNameAlreadyTaken => Received {
                state: StateView { room: None, ..self },
                shown: Ok(seq![label(message)]),
            },
            MessageFromServerView::UsernameAlreadyTaken => Received {
                state: StateView { username: None, ..self },
                shown: Ok(seq![label(message)]),
            },
            _ => Received { state: self, shown: Ok(seq![label(message)]) },
        }
    }
}

pub open spec fn shown_view(shown: Result<Vec<String>, StateError>) -> Result<
    Seq<Seq<char>>,
    StateError,
> {
    match shown {
        Ok(lines) => Ok(lines.deep_view()),
        Err(error) => Err(error),
    }
}

fn one_line(text: &str) -> (lines: Vec<String>)
    ensures
        lines.deep_view() == seq![text@],
{
    let mut lines: Vec<String> = Vec::new();
    lines.push(String::from_str(text));
    lines
}

impl State {
    fn show(&self) -> (shown: Result<Vec<String>, StateError>)
        ensures
            shown_view(shown) == self@.shown(),
    {
        match self.print_game_state() {
            Some(lines) => Ok(lines),
            None => Err(StateError::Inconsistent),
        }
    }

    /// Take in one message from the server, and say what is to be shown.
    pub fn receive(&mut self, message: MessageFromServer) -> (shown: Result<Vec<String>, StateError>)
        ensures
            final(self)@ == old(self)@.received(message@).state,
            shown_view(shown) == old(self)@.received(message@).shown,
    {
        match message {
            MessageFromServer::State(game_state) => {
                self.game_state = game_state;
                self.show()
            },
            MessageFromServer::StateChanged(bytes) => match self.apply_patch(bytes) {
                Ok(()) => self.show(),
                Err(_) => Err(StateError::BadPatch),
            },
            MessageFromServer::RoomFull => {
                self.room = None;
                Ok(one_line("RoomFull"))
            },
            MessageFromServer::RoomDoesNotExist => {
                self.room = None;
                Ok(one_line("RoomDoesNotExist"))
            },
            MessageFromServer::RoomNameAlreadyTaken => {
                self.room = None;
                Ok(one_line("RoomNameAlreadyTaken"))
            },
            MessageFromServer::UsernameAlreadyTaken => {
                self.username = None;
                Ok(one_line("UsernameAlreadyTaken"))
            },
            MessageFromServer::ServerJoined => Ok(one_line("ServerJoined")),
            MessageFromServer::RoomJoined => Ok(one_line("RoomJoined")),
            MessageFromServer::RoomCreated => Ok(one_line("RoomCreated")),
        }
    }
}

} // verus!
