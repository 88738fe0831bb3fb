//! The difference between two snapshots, field by field, and its encoding.
//!
//! A room sends a difference to the members that already hold the previous
//! snapshot; a client applies it to its own copy.

use crate::message::{GameState, GameStateView};
use vstd::prelude::*;

verus! {

/// For each field of a snapshot: its new value, or nothing where it stayed.
#[derive(Debug)]
pub struct GameStateDelta {
    pub players: Option<Vec<String>>,
    pub board: Option<Vec<Vec<i8>>>,
    pub winner: Option<Option<i8>>,
    pub turn: Option<u8>,
    pub started: Option<bool>,
}

pub struct GameStateDeltaView {
    pub players: Option<Seq<Seq<char>>>,
    pub board: Option<Seq<Seq<i8>>>,
    pub winner: Option<Option<i8>>,
    pub turn: Option<u8>,
    pub started: Option<bool>,
}

impl View for GameStateDelta {
    type V = GameStateDeltaView;

    open spec fn view(&self) -> GameStateDeltaView {
        GameStateDeltaView {
            players: self.players.deep_view(),
            board: self.board.deep_view(),
            winner: self.winner,
            turn: self.turn,
            started: self.started,
        }
    }
}

/// Why a difference could not be turned into bytes, or bytes into a difference.
#[derive(Debug, Clone, Copy, PartialEq, Eq, Structural)]
pub enum DeltaError {
    /// The encoder gave up.
    Encode,
    /// The bytes are not the encoding of any difference.
    Decode,
}

/// The error of the `bincode` crate, carried through and never looked into.
#[verifier::external_type_specification]
#[verifier::external_body]
pub struct ExErrorKind(bincode::ErrorKind);

/// The bytes that `bincode::serialize` makes of the five fields of a difference,
/// taken as a tuple in the order of their declaration; nothing where it fails.
pub uninterp spec fn encoded_delta(patch: GameStateDeltaView) -> Option<Seq<u8>>;

/// The difference whose five fields `bincode::deserialize` reads as a tuple from
/// the front of `bytes`; nothing where it fails.
pub uninterp spec fn decoded_delta(bytes: Seq<u8>) -> Option<GameStateDeltaView>;

/// Calls `bincode::serialize` on the fields of `patch`. The contract gives the
/// outcome a name and claims no more: the same difference always has the same
/// encoding, or always none.
#[verifier::external_body]
fn encode(patch: &GameStateDelta) -> (res: Result<Vec<u8>, Box<bincode::ErrorKind>>)
    ensures
        match res {
            Ok(bytes) => encoded_delta(patch@) == Some(bytes@),
            Err(_) => encoded_delta(patch@) is None,
        },
{
    bincode::serialize(&(&patch.players, &patch.board, &patch.winner, &patch.turn, &patch.started))
}

/// Calls `bincode::deserialize` for the five fields of a difference. The
/// contract gives the outcome a name and claims no more: the same bytes are
/// always read as the same difference, or always refused.
#[verifier::external_body]
fn decode(bytes: &[u8]) -> (res: Result<GameStateDelta, Box<bincode::ErrorKind>>)
    ensures
        match res {
            Ok(patch) => decoded_delta(bytes@) == Some(patch@),
            Err(_) => decoded_delta(bytes@) is None,
        },
{
    let (players, board, winner, turn, started) = bincode::deserialize(bytes)?;
    Ok(GameStateDelta { players, board, winner, turn, started })
}

/// The bytes by which `patch` can be sent: its encoding, where there is one and
/// a receiver reads it back as `patch`.
pub open spec fn wire(patch: GameStateDeltaView) -> Option<Seq<u8>> {
    match encoded_delta(patch) {
        Some(bytes) => if decoded_delta(bytes) == Some(patch) {
            Some(bytes)
        } else {
            None
        },
        None => None,
    }
}

/// `new` where it differs from `old`, nothing where it does not.
pub open spec fn changed<A>(old: A, new: A) -> Option<A> {
    if old == new {
        None
    } else {
        Some(new)
    }
}

/// `change` where there is one, else `old`.
pub open spec fn replaced<A>(old: A, change: Option<A>) -> A {
    match change {
        Some(new) => new,
        None => old,
    }
}

impl GameStateView {
    /// The difference that leads from this snapshot to `end_state`.
    pub open spec fn delta_towards(self, end_state: GameStateView) -> GameStateDeltaView {
        GameStateDeltaView {
            players: changed(self.players, end_state.players),
            board: changed(self.board, end_state.board),
            winner: changed(self.winner, end_state.winner),
            turn: changed(self.turn, end_state.turn),
            started: changed(self.started, end_state.started),
        }
    }

    /// This snapshot with every change of `patch` made.
    pub open spec fn patched(self, patch: GameStateDeltaView) -> GameStateView {
        GameStateView {
            players: replaced(self.players, patch.players),
            board: replaced(self.board, patch.board),
            winner: replaced(self.winner, patch.winner),
            turn: replaced(self.turn, patch.turn),
            started: replaced(self.started, patch.started),
        }
    }
}

/// Applying the difference between two snapshots to the first gives the second.
pub proof fn lemma_delta_round_trip(start: GameStateView, end: GameStateView)
    ensures
        start.patched(start.delta_towards(end)) == end,
{
}

fn same_names(a: &Vec<String>, b: &Vec<String>) -> (same: bool)
    ensures
        same == (a.deep_view() == b.deep_view()),
{
    if a.len() != b.len() {
        assert(a.deep_view().len() != b.deep_view().len());
        return false;
    }
    let mut i: usize = 0;
    while i < a.len()
        invariant
            i <= a.len(),
            a.len() == b.len(),
            forall|k: int| 0 <= k < i ==> a[k]@ == b[k]@,
        decreases a.len() - i,
    {
        if a[i] != b[i] {
            assert(a.deep_view()[i as int] != b.deep_view()[i as int]);
            return false;
        }
        i += 1;
    }
    assert(a.deep_view() =~= b.deep_view());
    true
}

fn same_row(a: &Vec<i8>, b: &Vec<i8>) -> (same: bool)
    ensures
        same == (a@ == b@),
{
    if a.len() != b.len() {
        return false;
    }
    let mut i: usize = 0;
    while i < a.len()
        invariant
            i <= a.len(),
            a.len() == b.len(),
            forall|k: int| 0 <= k < i ==> a[k] == b[k],
        decreases a.len() - i,
    {
        if a[i] != b[i] {
            return false;
        }
        i += 1;
    }
    assert(a@ =~= b@);
    true
}

fn same_board(a: &Vec<Vec<i8>>, b: &Vec<Vec<i8>>) -> (same: bool)
    ensures
        same == (a.deep_view() == b.deep_view()),
{
    if a.len() != b.len() {
        assert(a.deep_view().len() != b.deep_view().len());
        return false;
    }
    let mut i: usize = 0;
    while i < a.len()
        invariant
            i <= a.len(),
            a.len() == b.len(),
            forall|k: int| 0 <= k < i ==> a[k]@ == b[k]@,
        decreases a.len() - i,
    {
        if !same_row(&a[i], &b[i]) {
            assert(a[i as int].deep_view() =~= a[i as int]@);
            assert(b[i as int].deep_view() =~= b[i as int]@);
            assert(a.deep_view()[i as int] != b.deep_view()[i as int]);
            return false;
        }
        i += 1;
    }
    assert(a.deep_view() =~~= b.deep_view());
    true
}

fn same_names_if_any(a: &Option<Vec<String>>, b: &Option<Vec<String>>) -> (same: bool)
    ensures
        same == (a.deep_view() == b.deep_view()),
{
    match (a, b) {
        (Some(x), Some(y)) => same_names(x, y),
        (None, None) => true,
        _ => false,
    }
}

fn same_board_if_any(a: &Option<Vec<Vec<i8>>>, b: &Option<Vec<Vec<i8>>>) -> (same: bool)
    ensures
        same == (a.deep_view() == b.deep_view()),
{
    match (a, b) {
        (Some(x), Some(y)) => same_board(x, y),
        (None, None) => true,
        _ => false,
    }
}

impl GameStateDelta {
    /// Whether the two differences make the same changes.
    pub fn same_as(&self, other: &GameStateDelta) -> (same: bool)
        ensures
            same == (self@ == other@),
    {
        same_names_if_any(&self.players, &other.players) && same_board_if_any(
            &self.board,
            &other.board,
        ) && self.winner == other.winner && self.turn == other.turn && self.started
            == other.started
    }

    /// The bytes by which this difference can be sent: its encoding, if it has
    /// one and a receiver reads it back as this difference. Nothing else is
    /// handed out.
    pub fn to_wire(&self) -> (res: Option<Vec<u8>>)
        ensures
            match res {
                Some(bytes) => wire(self@) == Some(bytes@),
                None => wire(self@) is None,
            },
    {
        match self.to_bytes() {
            Ok(bytes) => match GameStateDelta::from_bytes(bytes.as_slice()) {
                Ok(read) => if read.same_as(self) {
                    Some(bytes)
                } else {
                    None
                },
                Err(_) => None,
            },
            Err(_) => None,
        }
    }

    /// The encoding of this difference.
    pub fn to_bytes(&self) -> (res: Result<Vec<u8>, DeltaError>)
        ensures
            match res {
                Ok(bytes) => encoded_delta(self@) == Some(bytes@),
                Err(e) => e == DeltaError::Encode && encoded_delta(self@) is None,
            },
    {
        match encode(self) {
            Ok(bytes) => Ok(bytes),
            Err(_) => Err(DeltaError::Encode),
        }
    }

    /// The difference that `bytes` encode.
    pub fn from_bytes(bytes: &[u8]) -> (res: Result<GameStateDelta, DeltaError>)
        ensures
            match res {
                Ok(patch) => decoded_delta(bytes@) == Some(patch@),
                Err(e) => e == DeltaError::Decode && decoded_delta(bytes@) is None,
            },
    {
        match decode(bytes) {
            Ok(patch) => Ok(patch),
            Err(_) => Err(DeltaError::Decode),
        }
    }
}

impl GameState {
    /// The difference that leads from this snapshot to `end_state`.
    pub fn create_delta_towards(&self, end_state: &GameState) -> (delta: GameStateDelta)
        ensures
            delta@ == self@.delta_towards(end_state@),
    {
        let players = if same_names(&self.players, &end_state.players) {
            None
        } else {
            Some(end_state.players.clone())
        };
        let board = if same_board(&self.board, &end_state.board) {
            None
        } else {
            Some(end_state.board.clone())
        };
        let winner = if self.winner == end_state.winner {
            None
        } else {
            Some(end_state.winner)
        };
        let turn = if self.turn == end_state.turn {
            None
        } else {
            Some(end_state.turn)
        };
        let started = if self.started == end_state.started {
            None
        } else {
            Some(end_state.started)
        };
        let delta = GameStateDelta { players, board, winner, turn, started };
        delta
    }

    /// Make every change of `patch` on this snapshot.
    pub fn apply_patch(&mut self, patch: GameStateDelta)
        ensures
            final(self)@ == old(self)@.patched(patch@),
    {
        if let Some(players) = patch.players {
            self.players = players;
        }
        if let Some(board) = patch.board {
            self.board = board;
        }
        if let Some(winner) = patch.winner {
            self.winner = winner;
        }
        if let Some(turn) = patch.turn {
            self.turn = turn;
        }
        if let Some(started) = patch.started {
            self.started = started;
        }
    }
}

} // verus!
