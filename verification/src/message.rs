//! The messages that travel between a client and the server, and the game
//! snapshot that a room replicates to its members.

use vstd::prelude::*;

verus! {

pub type Username = String;

pub type RoomName = String;

/// The mark of a cell that no player has taken.
pub const EMPTY: i8 = -1;

/// The side length of the board.
pub const SIDE: usize = 3;

/// A move of a member inside a room.
#[derive(Debug, Clone, Copy, PartialEq, Eq, Structural)]
pub enum GameAction {
    PlaceNode(usize, usize),
    Restart,
}

/// What a client sends to the server.
#[derive(Debug)]
pub enum MessageFromClient {
    /// Answered by `ServerJoined` or `UsernameAlreadyTaken`.
    JoinServer(Username),
    /// Not answered.
    LeaveServer,
    /// Answered by `RoomJoined`, `RoomFull` or `RoomDoesNotExist`.
    JoinRoom(RoomName),
    /// Answered by `RoomCreated` or `RoomNameAlreadyTaken`.
    CreateRoom(RoomName),
    LeaveRoom,
    GameAction(GameAction),
}

/// What the server sends to a client.
#[derive(Debug)]
pub enum MessageFromServer {
    ServerJoined,
    UsernameAlreadyTaken,
    RoomJoined,
    RoomFull,
    RoomDoesNotExist,
    RoomCreated,
    RoomNameAlreadyTaken,
    /// The encoded difference between the last snapshot that the receiver holds
    /// and the current one.
    StateChanged(Vec<u8>),
    /// The current snapshot as a whole.
    State(GameState),
}

pub enum MessageFromClientView {
    JoinServer(Seq<char>),
    LeaveServer,
    JoinRoom(Seq<char>),
    CreateRoom(Seq<char>),
    LeaveRoom,
    GameAction(GameAction),
}

pub enum MessageFromServerView {
    ServerJoined,
    UsernameAlreadyTaken,
    RoomJoined,
    RoomFull,
    RoomDoesNotExist,
    RoomCreated,
    RoomNameAlreadyTaken,
    StateChanged(Seq<u8>),
    State(GameStateView),
}

impl View for MessageFromClient {
    type V = MessageFromClientView;

    open spec fn view(&self) -> MessageFromClientView {
        match self {
            MessageFromClient::JoinServer(name) => MessageFromClientView::JoinServer(name@),
            MessageFromClient::LeaveServer => MessageFromClientView::LeaveServer,
            MessageFromClient::JoinRoom(name) => MessageFromClientView::JoinRoom(name@),
            MessageFromClient::CreateRoom(name) => MessageFromClientView::CreateRoom(name@),
            MessageFromClient::LeaveRoom => MessageFromClientView::LeaveRoom,
            MessageFromClient::GameAction(action) => MessageFromClientView::GameAction(*action),
        }
    }
}

impl View for MessageFromServer {
    type V = MessageFromServerView;

    open spec fn view(&self) -> MessageFromServerView {
        match self {
            MessageFromServer::ServerJoined => MessageFromServerView::ServerJoined,
            MessageFromServer::UsernameAlreadyTaken => MessageFromServerView::UsernameAlreadyTaken,
            MessageFromServer::RoomJoined => MessageFromServerView::RoomJoined,
            MessageFromServer::RoomFull => MessageFromServerView::RoomFull,
            MessageFromServer::RoomDoesNotExist => MessageFromServerView::RoomDoesNotExist,
            MessageFromServer::RoomCreated => MessageFromServerView::RoomCreated,
            MessageFromServer::RoomNameAlreadyTaken => MessageFromServerView::RoomNameAlreadyTaken,
            MessageFromServer::StateChanged(bytes) => MessageFromServerView::StateChanged(bytes@),
            MessageFromServer::State(state) => MessageFromServerView::State(state@),
        }
    }
}

impl Clone for MessageFromClient {
    fn clone(&self) -> (copy: MessageFromClient)
        ensures
            copy@ == self@,
    {
        match self {
            MessageFromClient::JoinServer(name) => MessageFromClient::JoinServer(name.clone()),
            MessageFromClient::LeaveServer => MessageFromClient::LeaveServer,
            MessageFromClient::JoinRoom(name) => MessageFromClient::JoinRoom(name.clone()),
            MessageFromClient::CreateRoom(name) => MessageFromClient::CreateRoom(name.clone()),
            MessageFromClient::LeaveRoom => MessageFromClient::LeaveRoom,
            MessageFromClient::GameAction(action) => MessageFromClient::GameAction(*action),
        }
    }
}

impl Clone for MessageFromServer {
    fn clone(&self) -> (copy: MessageFromServer)
        ensures
            copy@ == self@,
    {
        match self {
            MessageFromServer::ServerJoined => MessageFromServer::ServerJoined,
            MessageFromServer::UsernameAlreadyTaken => MessageFromServer::UsernameAlreadyTaken,
            MessageFromServer::RoomJoined => MessageFromServer::RoomJoined,
            MessageFromServer::RoomFull => MessageFromServer::RoomFull,
            MessageFromServer::RoomDoesNotExist => MessageFromServer::RoomDoesNotExist,
            MessageFromServer::RoomCreated => MessageFromServer::RoomCreated,
            MessageFromServer::RoomNameAlreadyTaken => MessageFromServer::RoomNameAlreadyTaken,
            MessageFromServer::StateChanged(bytes) => MessageFromServer::StateChanged(
                bytes.clone(),
            ),
            MessageFromServer::State(state) => MessageFromServer::State(state.clone()),
        }
    }
}

/// The snapshot of one room's game.
#[derive(Debug)]
pub struct GameState {
    pub players: Vec<String>,
    pub board: Vec<Vec<i8>>,
    pub winner: Option<i8>,
    pub turn: u8,
    pub started: bool,
}

/// What a snapshot is to a contract: names as character sequences, the board as
/// rows of cells.
pub struct GameStateView {
    pub players: Seq<Seq<char>>,
    pub board: Seq<Seq<i8>>,
    pub winner: Option<i8>,
    pub turn: u8,
    pub started: bool,
}

impl View for GameState {
    type V = GameStateView;

    open spec fn view(&self) -> GameStateView {
        GameStateView {
            players: self.players.deep_view(),
            board: self.board.deep_view(),
            winner: self.winner,
            turn: self.turn,
            started: self.started,
        }
    }
}

/// The board on which nothing has been placed.
pub open spec fn empty_board() -> Seq<Seq<i8>> {
    Seq::new(SIDE as nat, |i: int| Seq::new(SIDE as nat, |j: int| EMPTY))
}

/// Whether `board` has three rows of three cells.
pub open spec fn is_square(board: Seq<Seq<i8>>) -> bool {
    &&& board.len() == SIDE
    &&& forall|i: int| 0 <= i < SIDE ==> (#[trigger] board[i]).len() == SIDE
}

/// Whether no cell of `board` is empty, whatever its shape.
pub open spec fn is_full(board: Seq<Seq<i8>>) -> bool {
    forall|i: int, j: int|
        0 <= i < board.len() && 0 <= j < board[i].len() ==> #[trigger] board[i][j] != EMPTY
}

/// The mark at `(x, y)` if the line through it is complete: its column, its row,
/// or either diagonal held by that mark.
pub open spec fn line_through(board: Seq<Seq<i8>>, x: int, y: int) -> Option<i8> {
    let mark = board[x][y];
    let column = board[0][y] == mark && board[1][y] == mark && board[2][y] == mark;
    let row = board[x][0] == mark && board[x][1] == mark && board[x][2] == mark;
    let falling = board[0][0] == mark && board[1][1] == mark && board[2][2] == mark;
    let rising = board[0][2] == mark && board[1][1] == mark && board[2][0] == mark;
    if column || row || falling || rising {
        Some(mark)
    } else {
        None
    }
}

impl GameStateView {
    /// The snapshot of a room that nobody has entered yet.
    pub open spec fn initial() -> GameStateView {
        GameStateView {
            players: Seq::empty(),
            board: empty_board(),
            winner: None,
            turn: 0,
            started: false,
        }
    }

    /// The board has three rows of three cells.
    pub open spec fn wf(self) -> bool {
        is_square(self.board)
    }

    /// The snapshot with an empty board, no winner and the first player to move.
    pub open spec fn reset_game(self) -> GameStateView {
        GameStateView { board: empty_board(), winner: None, turn: 0, ..self }
    }

    /// The mark of `username`: 1 for the second player, 0 for anyone else.
    pub open spec fn mark_of(self, username: Seq<char>) -> i8 {
        if self.players[1] == username {
            1
        } else {
            0
        }
    }

    /// The snapshot after `username` asks for the cell `(x, y)`: a taken cell
    /// leaves everything as it was.
    pub open spec fn place_node(self, x: int, y: int, username: Seq<char>) -> GameStateView {
        if self.board[x][y] == EMPTY {
            let board = self.board.update(x, self.board[x].update(y, self.mark_of(username)));
            GameStateView { board, winner: line_through(board, x, y), ..self }
        } else {
            self
        }
    }
}

fn empty_row() -> (row: Vec<i8>)
    ensures
        row@ == Seq::new(SIDE as nat, |j: int| EMPTY),
{
    let mut row: Vec<i8> = Vec::new();
    row.push(EMPTY);
    row.push(EMPTY);
    row.push(EMPTY);
    row
}

fn new_board() -> (board: Vec<Vec<i8>>)
    ensures
        board.deep_view() == empty_board(),
{
    let mut board: Vec<Vec<i8>> = Vec::new();
    board.push(empty_row());
    board.push(empty_row());
    board.push(empty_row());
    assert(board.deep_view() =~~= empty_board());
    board
}

impl Clone for GameState {
    fn clone(&self) -> (copy: GameState)
        ensures
            copy@ == self@,
    {
        let copy = GameState {
            players: self.players.clone(),
            board: self.board.clone(),
            winner: self.winner,
            turn: self.turn,
            started: self.started,
        };
        copy
    }
}

impl Default for GameState {
    fn default() -> (state: GameState)
        ensures
            state@ == GameStateView::initial(),
    {
        let state = GameState {
            players: Vec::new(),
            board: new_board(),
            winner: None,
            turn: 0,
            started: false,
        };
        assert(state.players.deep_view() =~= Seq::empty());
        state
    }
}

impl GameState {
    pub open spec fn wf(&self) -> bool {
        self@.wf()
    }

    /// The view of the board has the cells of the board, row by row.
    proof fn lemma_board_view(&self)
        ensures
            self@.board.len() == self.board.len(),
            forall|i: int| 0 <= i < self.board.len() ==> self@.board[i] == (#[trigger] self.board[i])@,
    {
    }

    pub fn reset_game(&mut self)
        ensures
            final(self)@ == old(self)@.reset_game(),
    {
        self.winner = None;
        self.board = new_board();
        self.turn = 0;
    }

    /// Place the mark of `username` at `(x, y)` if the cell is empty, and look for
    /// a winner through that cell. A cell that is taken is left alone, whatever
    /// the board and whoever plays; to take an empty one, the board has to be
    /// whole and a second player has to be there.
    pub fn place_node(&mut self, x: usize, y: usize, username: &Username)
        requires
            x < old(self).board.len(),
            y < old(self).board[x as int].len(),
            old(self).board[x as int][y as int] == EMPTY ==> old(self).wf() && old(
                self,
            ).players.len() >= 2,
        ensures
            final(self)@ == old(self)@.place_node(x as int, y as int, username@),
    {
        if self.board[x][y] == EMPTY {
            let mark: i8 = if self.players[1] == *username { 1 } else { 0 };
            self.board[x][y] = mark;
            proof {
                assert(self@.board =~~= old(self)@.board.update(
                    x as int,
                    old(self)@.board[x as int].update(y as int, mark),
                ));
            }
            self.winner = self.check_winner(x, y);
        }
    }

    fn check_winner(&self, x: usize, y: usize) -> (winner: Option<i8>)
        requires
            self.wf(),
            x < SIDE,
            y < SIDE,
        ensures
            winner == line_through(self@.board, x as int, y as int),
    {
        proof {
            self.lemma_board_view();
        }
        let color = self.board[x][y];
        if self.board[0][y] == self.board[1][y] && self.board[1][y] == self.board[2][y] {
            Some(color)
        } else if self.board[x][0] == self.board[x][1] && self.board[x][1] == self.board[x][2] {
            Some(color)
        } else if self.board[0][0] == self.board[1][1] && self.board[1][1] == self.board[2][2]
            && self.board[1][1] == color {
            Some(color)
        } else if self.board[0][2] == self.board[1][1] && self.board[1][1] == self.board[2][0]
            && self.board[1][1] == color {
            Some(color)
        } else {
            None
        }
    }

    pub fn is_gameover(&self) -> (over: bool)
        ensures
            over == is_full(self@.board),
    {
        proof {
            self.lemma_board_view();
        }
        let mut i: usize = 0;
        while i < self.board.len()
            invariant
                i <= self.board.len(),
                forall|a: int, b: int|
                    0 <= a < i && 0 <= b < self.board[a].len() ==> self.board[a][b] != EMPTY,
            decreases self.board.len() - i,
        {
            let mut j: usize = 0;
            while j < self.board[i].len()
                invariant
                    i < self.board.len(),
                    j <= self.board[i as int].len(),
                    forall|b: int| 0 <= b < j ==> self.board[i as int][b] != EMPTY,
                decreases self.board[i as int].len() - j,
            {
                if self.board[i][j] == EMPTY {
                    assert(self@.board[i as int][j as int] == EMPTY);
                    return false;
                }
                j += 1;
            }
            i += 1;
        }
        true
    }
}

} // verus!
