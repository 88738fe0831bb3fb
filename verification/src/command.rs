//! The commands that a player types, and what the player's program makes of
//! them.

use crate::message::{GameAction, MessageFromClient, MessageFromClientView, EMPTY, SIDE};
use crate::state::{State, StateError, StateView};
use vstd::prelude::*;
use vstd::string::*;

verus! {

/// Whether `c` separates words: the characters that Unicode calls white space.
pub open spec fn is_space(c: char) -> bool {
    let code = c as u32;
    ||| 0x09 <= code <= 0x0d
    ||| code == 0x20
    ||| code == 0x85
    ||| code == 0xa0
    ||| code == 0x1680
    ||| 0x2000 <= code <= 0x200a
    ||| code == 0x2028
    ||| code == 0x2029
    ||| code == 0x202f
    ||| code == 0x205f
    ||| code == 0x3000
}

/// The words of `text`: its longest runs of characters that do not separate
/// words, first to last.
pub open spec fn words(text: Seq<char>) -> Seq<Seq<char>>
    decreases text.len(),
{
    if text.len() == 0 {
        Seq::empty()
    } else {
        let before = words(text.drop_last());
        let c = text.last();
        if is_space(c) {
            before
        } else if text.len() >= 2 && !is_space(text[text.len() - 2]) {
            before.drop_last().push(before.last().push(c))
        } else {
            before.push(seq![c])
        }
    }
}

pub open spec fn is_digit(c: char) -> bool {
    '0' <= c <= '9'
}

/// The number that the decimal digits `digits` write.
pub open spec fn decimal(digits: Seq<char>) -> nat
    decreases digits.len(),
{
    if digits.len() == 0 {
        0
    } else {
        decimal(digits.drop_last()) * 10 + (digits.last() as u32 - '0' as u32) as nat
    }
}

/// `word` without the plus sign that may stand in front of a number.
pub open spec fn unsigned(word: Seq<char>) -> Seq<char> {
    if word.len() > 0 && word[0] == '+' {
        word.drop_first()
    } else {
        word
    }
}

/// The number that `word` writes, if it writes one that a `usize` holds: one
/// decimal digit or more, with or without a plus sign in front.
pub open spec fn number(word: Seq<char>) -> Option<usize> {
    let digits = unsigned(word);
    if digits.len() > 0 && (forall|i: int| 0 <= i < digits.len() ==> is_digit(#[trigger] digits[i]))
        && decimal(digits) <= usize::MAX {
        Some(decimal(digits) as usize)
    } else {
        None
    }
}

fn is_space_char(c: char) -> (space: bool)
    ensures
        space == is_space(c),
{
    let code = c as u32;
    (0x09 <= code && code <= 0x0d) || code == 0x20 || code == 0x85 || code == 0xa0 || code
        == 0x1680 || (0x2000 <= code && code <= 0x200a) || code == 0x2028 || code == 0x2029
        || code == 0x202f || code == 0x205f || code == 0x3000
}

/// The characters of `text`.
fn chars_of(text: &str) -> (chars: Vec<char>)
    ensures
        chars@ == text@,
{
    let n = text.unicode_len();
    let mut chars: Vec<char> = Vec::new();
    let mut i: usize = 0;
    while i < n
        invariant
            i <= n,
            n == text@.len(),
            chars@ == text@.take(i as int),
        decreases n - i,
    {
        chars.push(text.get_char(i));
        i += 1;
    }
    chars
}

/// A number only grows when a digit is written behind it.
proof fn lemma_decimal_grows(digits: Seq<char>, k: int)
    requires
        0 <= k <= digits.len(),
    ensures
        decimal(digits.take(k)) <= decimal(digits),
    decreases digits.len() - k,
{
    if k < digits.len() {
        lemma_decimal_grows(digits, k + 1);
        assert(digits.take(k + 1).drop_last() =~= digits.take(k));
    } else {
        assert(digits.take(k) =~= digits);
    }
}

fn parse_number(word: &Vec<char>) -> (parsed: Option<usize>)
    ensures
        parsed == number(word@),
{
    let start: usize = if word.len() > 0 && word[0] == '+' { 1 } else { 0 };
    let ghost digits = unsigned(word@);
    if start == word.len() {
        return None;
    }
    let mut value: usize = 0;
    let mut i: usize = start;
    while i < word.len()
        invariant
            start <= i <= word.len(),
            digits == unsigned(word@),
            digits == word@.subrange(start as int, word.len() as int),
            forall|k: int| 0 <= k < i - start ==> is_digit(#[trigger] digits[k]),
            value == decimal(digits.take(i - start)),
        decreases word.len() - i,
    {
        let c = word[i];
        if c < '0' || c > '9' {
            assert(!is_digit(digits[i - start]));
            return None;
        }
        let digit = (c as u32 - '0' as u32) as usize;
        let ghost seen = digits.take(i - start + 1);
        assert(seen.drop_last() =~= digits.take(i - start));
        proof {
            lemma_decimal_grows(digits, i - start + 1);
        }
        let tens = match value.checked_mul(10) {
            Some(tens) => tens,
            None => {
                return None;
            },
        };
        value = match tens.checked_add(digit) {
            Some(sum) => sum,
            None => {
                return None;
            },
        };
        i += 1;
    }
    assert(digits.take(i - start) =~= digits);
    Some(value)
}

/// The words of `text`.
fn split_words(text: &Vec<char>) -> (found: Vec<Vec<char>>)
    ensures
        found.deep_view() == words(text@),
{
    let mut found: Vec<Vec<char>> = Vec::new();
    let mut current: Vec<char> = Vec::new();
    let mut in_word = false;
    let mut i: usize = 0;
    while i < text.len()
        invariant
            i <= text.len(),
            in_word == (i > 0 && !is_space(text[i - 1])),
            !in_word ==> found.deep_view() == words(text@.take(i as int)),
            in_word ==> found.deep_view().push(current@) == words(text@.take(i as int)),
        decreases text.len() - i,
    {
        let c = text[i];
        let ghost seen = text@.take(i as int + 1);
        assert(seen.drop_last() =~= text@.take(i as int));
        assert(seen.last() == c);
        if is_space_char(c) {
            if in_word {
                assert(current.deep_view() =~= current@);
                found.push(current);
                current = Vec::new();
            }
            in_word = false;
        } else {
            if in_word {
                current.push(c);
            } else {
                current = Vec::new();
                current.push(c);
            }
            in_word = true;
        }
        i += 1;
    }
    assert(text@.take(i as int) =~= text@);
    if in_word {
        assert(current.deep_view() =~= current@);
        found.push(current);
    }
    found
}

/// What a line that the player typed asks for.
#[derive(Debug, Clone, Copy, PartialEq, Eq, Structural)]
pub enum Command {
    JoinServer,
    LeaveServer,
    CreateRoom,
    JoinRoom,
    LeaveRoom,
    Restart,
    /// An empty line.
    Nothing,
    /// A mark at the given cell.
    PlaceAt(usize, usize),
    /// A mark, but not at a cell that two numbers name.
    BadPlaceAt,
    /// Nothing that the program knows.
    Unknown,
}

/// What the program has to ask the player before it can do as told.
#[derive(Debug, Clone, Copy, PartialEq, Eq, Structural)]
pub enum Question {
    Username,
    RoomName,
}

/// What `rest` asks for when it follows the words `place at`: a mark at the
/// cell that it names by exactly two numbers.
pub open spec fn place_of(rest: Seq<char>) -> Command {
    let named = words(rest);
    if named.len() == 2 && number(named[0]) is Some && number(named[1]) is Some {
        Command::PlaceAt(number(named[0])->0, number(named[1])->0)
    } else {
        Command::BadPlaceAt
    }
}

/// What a line asks for.
pub open spec fn command_of(line: Seq<char>) -> Command {
    if line == "join server"@ {
        Command::JoinServer
    } else if line == "leave server"@ {
        Command::LeaveServer
    } else if line == "create room"@ {
        Command::CreateRoom
    } else if line == "join room"@ {
        Command::JoinRoom
    } else if line == "leave room"@ {
        Command::LeaveRoom
    } else if line == "restart"@ {
        Command::Restart
    } else if line.len() == 0 {
        Command::Nothing
    } else if "place at "@.is_prefix_of(line) {
        place_of(line.skip("place at "@.len() as int))
    } else {
        Command::Unknown
    }
}

/// Whether `text` begins with `prefix`.
fn begins_with(text: &Vec<char>, prefix: &str) -> (begins: bool)
    ensures
        begins == prefix@.is_prefix_of(text@),
{
    let n = prefix.unicode_len();
    if text.len() < n {
        return false;
    }
    let mut i: usize = 0;
    while i < n
        invariant
            i <= n,
            n == prefix@.len(),
            n <= text.len(),
            forall|k: int| 0 <= k < i ==> text[k] == prefix@[k],
        decreases n - i,
    {
        if text[i] != prefix.get_char(i) {
            return false;
        }
        i += 1;
    }
    true
}

/// Whether `text` is `word`.
fn is_text(text: &Vec<char>, word: &str) -> (same: bool)
    ensures
        same == (text@ == word@),
{
    let n = word.unicode_len();
    if text.len() != n {
        return false;
    }
    let begins = begins_with(text, word);
    assert(text@.subrange(0, n as int) =~= text@);
    begins
}

/// The characters of `text` from the one at `from` on.
fn tail_of(text: &Vec<char>, from: usize) -> (tail: Vec<char>)
    requires
        from <= text.len(),
    ensures
        tail@ == text@.skip(from as int),
{
    let mut tail: Vec<char> = Vec::new();
    let mut i: usize = from;
    while i < text.len()
        invariant
            from <= i <= text.len(),
            tail@ == text@.subrange(from as int, i as int),
        decreases text.len() - i,
    {
        tail.push(text[i]);
        i += 1;
    }
    tail
}

/// What a line that the player typed asks for.
pub fn parse_command(line: &str) -> (command: Command)
    ensures
        command == command_of(line@),
{
    let text = chars_of(line);
    if is_text(&text, "join server") {
        Command::JoinServer
    } else if is_text(&text, "leave server") {
        Command::LeaveServer
    } else if is_text(&text, "create room") {
        Command::CreateRoom
    } else if is_text(&text, "join room") {
        Command::JoinRoom
    } else if is_text(&text, "leave room") {
        Command::LeaveRoom
    } else if is_text(&text, "restart") {
        Command::Restart
    } else if text.len() == 0 {
        Command::Nothing
    } else if begins_with(&text, "place at ") {
        let rest = tail_of(&text, "place at ".unicode_len());
        let named = split_words(&rest);
        if named.len() != 2 {
            return Command::BadPlaceAt;
        }
        assert(named[0].deep_view() =~= named[0]@);
        assert(named[1].deep_view() =~= named[1]@);
        match (parse_number(&named[0]), parse_number(&named[1])) {
            (Some(x), Some(y)) => Command::PlaceAt(x, y),
            _ => Command::BadPlaceAt,
        }
    } else {
        Command::Unknown
    }
}

impl Command {
    /// What the program has to ask the player before it can do as told.
    pub fn question(&self) -> (question: Option<Question>)
        ensures
            question == match self {
                Command::JoinServer => Some(Question::Username),
                Command::CreateRoom | Command::JoinRoom => Some(Question::RoomName),
                _ => None,
            },
    {
        match self {
            Command::JoinServer => Some(Question::Username),
            Command::CreateRoom | Command::JoinRoom => Some(Question::RoomName),
            _ => None,
        }
    }
}

impl Question {
    /// The words in which the question is put.
    pub fn text(&self) -> (text: String)
        ensures
            text@ == match self {
                Question::Username => "username: "@,
                Question::RoomName => "room name: "@,
            },
    {
        match self {
            Question::Username => String::from_str("username: "),
            Question::RoomName => String::from_str("room name: "),
        }
    }
}

/// What the program does about a command.
#[derive(Debug)]
pub struct CommandStep {
    /// The message to send to the server.
    pub send: Option<MessageFromClient>,
    /// What to tell the player.
    pub say: Option<String>,
    /// Whether the program is done.
    pub stop: bool,
}

pub struct CommandStepView {
    pub send: Option<MessageFromClientView>,
    pub say: Option<Seq<char>>,
    pub stop: bool,
}

impl View for CommandStep {
    type V = CommandStepView;

    open spec fn view(&self) -> CommandStepView {
        CommandStepView {
            send: match self.send {
                Some(message) => Some(message@),
                None => None,
            },
            say: crate::state::text_view(self.say),
            stop: self.stop,
        }
    }
}

/// What the program knows after a command, and what it does about it.
pub struct Commanded {
    pub state: StateView,
    pub step: CommandStepView,
}

pub open spec fn sending(state: StateView, message: MessageFromClientView) -> Commanded {
    Commanded {
        state,
        step: CommandStepView { send: Some(message), say: None, stop: message is LeaveServer },
    }
}

pub open spec fn saying(state: StateView, text: Seq<char>) -> Commanded {
    Commanded { state, step: CommandStepView { send: None, say: Some(text), stop: false } }
}

pub open spec fn idle(state: StateView, stop: bool) -> Commanded {
    Commanded { state, step: CommandStepView { send: None, say: None, stop } }
}

impl StateView {
    /// Whether the copy of the game can be asked whose turn it is.
    pub open spec fn knows_turn(self) -> bool {
        self.username is Some && self.game_state.turn < self.game_state.players.len()
    }

    /// Whether the board of the copy has a cell at `(x, y)`.
    pub open spec fn has_cell(self, x: int, y: int) -> bool {
        0 <= x < self.game_state.board.len() && 0 <= y < self.game_state.board[x].len()
    }

    /// What the program makes of the wish for a mark at `(x, y)`.
    pub open spec fn placed(self, x: usize, y: usize) -> Result<Commanded, StateError> {
        if self.room is None {
            Ok(saying(self, "Invalid place at command. e.g.: place at 0 0"@))
        } else if !self.knows_turn() {
            Err(StateError::Inconsistent)
        } else if !self.is_my_turn() {
            Ok(saying(self, "Not your turn!"@))
        } else if !self.game_state.started {
            Ok(saying(self, "Still waiting for players!"@))
        } else if x >= SIDE || y >= SIDE {
            Ok(saying(self, "Invalid position(s)! Position must be between 0 and 2 inclusive"@))
        } else if !self.has_cell(x as int, y as int) {
            Err(StateError::Inconsistent)
        } else if self.game_state.board[x as int][y as int] != EMPTY {
            Ok(saying(self, "Invalid position!"@))
        } else {
            Ok(sending(self, MessageFromClientView::GameAction(GameAction::PlaceNode(x, y))))
        }
    }

    /// What the program makes of a command. `answer` is what the player said
    /// when asked for a name, where the command needs one; the program is done
    /// where it needs one and there is none.
    pub open spec fn commanded(self, command: Command, answer: Option<Seq<char>>) -> Result<
        Commanded,
        StateError,
    > {
        match command {
            Command::JoinServer => match answer {
                Some(name) => Ok(
                    sending(
                        StateView { username: Some(name), ..self },
                        MessageFromClientView::JoinServer(name),
                    ),
                ),
                None => Ok(idle(self, true)),
            },
            Command::LeaveServer => Ok(sending(self, MessageFromClientView::LeaveServer)),
            Command::CreateRoom => match answer {
                Some(name) => Ok(
                    sending(
                        StateView { room: Some(name), ..self },
                        MessageFromClientView::CreateRoom(name),
                    ),
                ),
                None => Ok(idle(self, true)),
            },
            Command::JoinRoom => match answer {
                Some(name) => Ok(
                    sending(
                        StateView { room: Some(name), ..self },
                        MessageFromClientView::JoinRoom(name),
                    ),
                ),
                None => Ok(idle(self, true)),
            },
            Command::LeaveRoom => Ok(
                sending(StateView { room: None, ..self }, MessageFromClientView::LeaveRoom),
            ),
            Command::Restart => if self.game_state.started {
                Ok(sending(self, MessageFromClientView::GameAction(GameAction::Restart)))
            } else {
                Ok(saying(self, "Still waiting for players!"@))
            },
            Command::Nothing => Ok(idle(self, false)),
            Command::PlaceAt(x, y) => self.placed(x, y),
            Command::BadPlaceAt => Ok(
                saying(self, "Invalid place at command. e.g.: place at 0 0"@),
            ),
            Command::Unknown => Ok(saying(self, "Invalid command"@)),
        }
    }
}

fn send(message: MessageFromClient) -> (step: CommandStep)
    ensures
        step@ == (CommandStepView {
            send: Some(message@),
            say: None,
            stop: message@ is LeaveServer,
        }),
{
    let stop = match &message {
        MessageFromClient::LeaveServer => true,
        _ => false,
    };
    CommandStep { send: Some(message), say: None, stop }
}

fn say(text: &str) -> (step: CommandStep)
    ensures
        step@ == (CommandStepView { send: None, say: Some(text@), stop: false }),
{
    CommandStep { send: None, say: Some(String::from_str(text)), stop: false }
}

fn rest(stop: bool) -> (step: CommandStep)
    ensures
        step@ == (CommandStepView { send: None, say: None, stop }),
{
    CommandStep { send: None, say: None, stop }
}

/// Whether `res` is what the model says of a command.
pub open spec fn follows(
    res: Result<CommandStep, StateError>,
    state: StateView,
    before: StateView,
    model: Result<Commanded, StateError>,
) -> bool {
    match model {
        Ok(commanded) => res is Ok && res->Ok_0@ == commanded.step && state == commanded.state,
        Err(error) => res is Err && res->Err_0 == error && state == before,
    }
}

impl State {
    fn place(&self, x: usize, y: usize) -> (res: Result<CommandStep, StateError>)
        ensures
            follows(res, self@, self@, self@.placed(x, y)),
    {
        if self.room.is_none() {
            return Ok(say("Invalid place at command. e.g.: place at 0 0"));
        }
        if self.username.is_none() || self.game_state.turn as usize
            >= self.game_state.players.len() {
            return Err(StateError::Inconsistent);
        }
        if !self.is_my_turn() {
            return Ok(say("Not your turn!"));
        }
        if !self.game_state.started {
            return Ok(say("Still waiting for players!"));
        }
        if x >= SIDE || y >= SIDE {
            return Ok(say("Invalid position(s)! Position must be between 0 and 2 inclusive"));
        }
        if x >= self.game_state.board.len() || y >= self.game_state.board[x].len() {
            return Err(StateError::Inconsistent);
        }
        if !self.can_place_at(x, y) {
            return Ok(say("Invalid position!"));
        }
        Ok(send(MessageFromClient::GameAction(GameAction::PlaceNode(x, y))))
    }

    /// Do as the player told. `answer` is what the player said when asked for
    /// a name, where the command needs one.
    pub fn command(&mut self, command: Command, answer: Option<String>) -> (res: Result<
        CommandStep,
        StateError,
    >)
        ensures
            follows(
                res,
                final(self)@,
                old(self)@,
                old(self)@.commanded(command, crate::state::text_view(answer)),
            ),
    {
        match command {
            Command::JoinServer => match answer {
                Some(name) => {
                    self.username = Some(name.clone());
                    Ok(send(MessageFromClient::JoinServer(name)))
                },
                None => Ok(rest(true)),
            },
            Command::LeaveServer => Ok(send(MessageFromClient::LeaveServer)),
            Command::CreateRoom => match answer {
                Some(name) => {
                    self.room = Some(name.clone());
                    Ok(send(MessageFromClient::CreateRoom(name)))
                },
                None => Ok(rest(true)),
            },
            Command::JoinRoom => match answer {
                Some(name) => {
                    self.room = Some(name.clone());
                    Ok(send(MessageFromClient::JoinRoom(name)))
                },
                None => Ok(rest(true)),
            },
            Command::LeaveRoom => {
                self.room = None;
                Ok(send(MessageFromClient::LeaveRoom))
            },
            Command::Restart => {
                if self.game_state.started {
                    Ok(send(MessageFromClient::GameAction(GameAction::Restart)))
                } else {
                    Ok(say("Still waiting for players!"))
                }
            },
            Command::Nothing => Ok(rest(false)),
            Command::PlaceAt(x, y) => self.place(x, y),
            Command::BadPlaceAt => Ok(say("Invalid place at command. e.g.: place at 0 0")),
            Command::Unknown => Ok(say("Invalid command")),
        }
    }
}

} // verus!
