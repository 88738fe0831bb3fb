use gamerooms::client::{ClientAction, ClientMsg, ClientProcess};
use gamerooms::coordinator::{Coordinator, CoordinatorEffect, CoordinatorMsg, CoordinatorRequest};
use gamerooms::game_room::GameRoom;
use gamerooms::message::{GameAction, MessageFromClient, MessageFromServer};
use gamerooms::registry::CoordinatorResponse;
use gamerooms::room::{Delivery, Room, RoomProcess};
use std::collections::HashMap;

const ALICE: u128 = 1;
const BOB: u128 = 2;
const CAROL: u128 = 3;

/// The coordinator and its rooms, with every message delivered at once.
struct Server {
    coordinator: Coordinator,
    rooms: HashMap<u64, RoomProcess<GameRoom>>,
    room_mail: Vec<(u64, String)>,
    sent: Vec<Delivery>,
}

impl Server {
    fn new() -> Self {
        Server {
            coordinator: Coordinator::new(GameRoom::max_client()),
            rooms: HashMap::new(),
            room_mail: Vec::new(),
            sent: Vec::new(),
        }
    }

    fn handle(&mut self, message: CoordinatorMsg) -> Option<CoordinatorResponse> {
        let mut answer = None;
        for effect in self.coordinator.handle(message).unwrap() {
            match effect {
                CoordinatorEffect::Spawn { room, name } => {
                    self.rooms.insert(room, RoomProcess::new(name));
                }
                CoordinatorEffect::ToRoom { room, message } => {
                    self.room_mail.push((room, format!("{:?}", message)));
                    let step = self.rooms.get_mut(&room).unwrap().handle(message);
                    self.sent.extend(step.deliveries);
                    if !step.running {
                        self.rooms.remove(&room);
                    }
                }
                CoordinatorEffect::Reply { response, .. } => answer = Some(response),
            }
        }
        answer
    }

    fn ask(&mut self, sender: u128, data: CoordinatorRequest) -> CoordinatorResponse {
        self.handle(CoordinatorMsg::Request { sender, link: 100 + sender as i64, data }).unwrap()
    }

    /// The directory and the rooms say the same.
    fn agree(&self) {
        assert_eq!(self.coordinator.room_count(), self.rooms.len());
        for (handle, room) in &self.rooms {
            assert!(room.len() >= 1);
            let seated = [ALICE, BOB, CAROL]
                .iter()
                .filter(|id| self.coordinator.room_of(**id) == Some(*handle))
                .count();
            assert_eq!(room.len(), seated);
        }
    }
}

#[test]
fn two_clients_and_a_dropped_connection() {
    let mut server = Server::new();
    assert_eq!(
        server.ask(ALICE, CoordinatorRequest::JoinServer("alice".to_string())),
        CoordinatorResponse::ServerJoined
    );
    assert_eq!(
        server.ask(BOB, CoordinatorRequest::JoinServer("bob".to_string())),
        CoordinatorResponse::ServerJoined
    );
    server.agree();

    let room = match server.ask(ALICE, CoordinatorRequest::CreateRoom("r1".to_string(), ALICE)) {
        CoordinatorResponse::RoomCreated(room) => room,
        other => panic!("unexpected {:?}", other),
    };
    assert_eq!(server.coordinator.occupancy(&"r1".to_string()), Some(1));
    server.agree();

    assert_eq!(
        server.ask(BOB, CoordinatorRequest::JoinRoom("r1".to_string(), BOB)),
        CoordinatorResponse::RoomJoined(room)
    );
    assert_eq!(server.coordinator.occupancy(&"r1".to_string()), Some(2));
    assert_eq!(server.rooms[&room].len(), 2);
    server.agree();

    // bob's connection drops: the runtime reports it under bob's tag.
    server.room_mail.clear();
    assert_eq!(server.handle(CoordinatorMsg::Signal(100 + BOB as i64)), None);
    assert_eq!(server.room_mail, vec![(room, "Drop(\"bob\")".to_string())]);
    assert!(!server.coordinator.has_session(BOB));
    assert!(server.coordinator.has_session(ALICE));
    // alice is still in the room, so the room lives on and counts one.
    assert_eq!(server.coordinator.occupancy(&"r1".to_string()), Some(1));
    assert_eq!(server.rooms[&room].len(), 1);
    server.agree();

    // When alice goes too the room counts nobody: it ends, its entry goes, and
    // alice is a session still.
    assert_eq!(
        server.ask(ALICE, CoordinatorRequest::LeaveRoom(ALICE)),
        CoordinatorResponse::RoomLeft
    );
    assert_eq!(server.coordinator.occupancy(&"r1".to_string()), None);
    assert!(server.rooms.is_empty());
    assert_eq!(server.coordinator.room_count(), 0);
    assert!(server.coordinator.has_session(ALICE));
    server.agree();
}

#[test]
fn the_last_member_drops() {
    let mut server = Server::new();
    server.ask(ALICE, CoordinatorRequest::JoinServer("alice".to_string()));
    server.ask(BOB, CoordinatorRequest::JoinServer("bob".to_string()));
    server.ask(BOB, CoordinatorRequest::CreateRoom("r1".to_string(), BOB));
    assert_eq!(server.coordinator.occupancy(&"r1".to_string()), Some(1));
    server.handle(CoordinatorMsg::Signal(100 + BOB as i64));
    // The room and its entry go in the same step.
    assert_eq!(server.coordinator.occupancy(&"r1".to_string()), None);
    assert!(server.rooms.is_empty());
    assert!(server.coordinator.has_session(ALICE));
    assert!(!server.coordinator.has_session(BOB));
    server.agree();
}

#[test]
fn a_full_room_refuses_carol() {
    let mut server = Server::new();
    server.ask(ALICE, CoordinatorRequest::JoinServer("alice".to_string()));
    server.ask(BOB, CoordinatorRequest::JoinServer("bob".to_string()));
    server.ask(CAROL, CoordinatorRequest::JoinServer("carol".to_string()));
    server.ask(ALICE, CoordinatorRequest::CreateRoom("r1".to_string(), ALICE));
    server.ask(BOB, CoordinatorRequest::JoinRoom("r1".to_string(), BOB));
    assert_eq!(server.coordinator.occupancy(&"r1".to_string()), Some(2));
    server.room_mail.clear();

    assert_eq!(
        server.ask(CAROL, CoordinatorRequest::JoinRoom("r1".to_string(), CAROL)),
        CoordinatorResponse::RoomFull
    );
    assert_eq!(server.coordinator.occupancy(&"r1".to_string()), Some(2));
    assert!(server.room_mail.is_empty());
    server.agree();
}

#[test]
fn members_are_told_the_state_of_their_room() {
    let mut server = Server::new();
    server.ask(ALICE, CoordinatorRequest::JoinServer("alice".to_string()));
    server.ask(BOB, CoordinatorRequest::JoinServer("bob".to_string()));
    server.ask(ALICE, CoordinatorRequest::CreateRoom("r1".to_string(), ALICE));
    assert_eq!(server.sent.len(), 1);
    assert_eq!(server.sent[0].to, ALICE);
    assert!(matches!(server.sent[0].message, MessageFromServer::State(_)));
    server.ask(BOB, CoordinatorRequest::JoinRoom("r1".to_string(), BOB));
    assert_eq!(server.sent.len(), 3);
    assert_eq!(server.sent[1].to, ALICE);
    assert!(matches!(server.sent[1].message, MessageFromServer::StateChanged(_)));
    assert_eq!(server.sent[2].to, BOB);
    match &server.sent[2].message {
        MessageFromServer::State(state) => {
            assert_eq!(state.players, vec!["alice".to_string(), "bob".to_string()]);
            assert!(state.started);
        }
        other => panic!("unexpected {:?}", other),
    }
}

#[test]
fn rooms_and_directory_agree_through_a_busy_evening() {
    let mut server = Server::new();
    let names = ["alice", "bob", "carol"];
    let ids = [ALICE, BOB, CAROL];
    // A fixed walk through joins, rooms, leaves and drops.
    let script: Vec<(usize, u8)> = vec![
        (0, 0), (1, 0), (2, 0), (0, 1), (1, 2), (2, 2), (0, 3), (2, 2), (1, 4), (1, 0),
        (1, 1), (2, 5), (0, 2), (0, 3), (1, 3), (2, 0), (2, 1), (0, 6), (1, 6), (0, 4),
    ];
    for (who, what) in script {
        let id = ids[who];
        let joined = server.coordinator.has_session(id);
        let seated = server.coordinator.room_of(id).is_some();
        match what {
            0 if !joined || !seated => {
                server.ask(id, CoordinatorRequest::JoinServer(names[who].to_string()));
            }
            1 if joined && !seated => {
                server.ask(id, CoordinatorRequest::CreateRoom(format!("r{}", who), id));
            }
            2 if joined && !seated => {
                server.ask(id, CoordinatorRequest::JoinRoom("r0".to_string(), id));
            }
            3 if seated => {
                server.ask(id, CoordinatorRequest::LeaveRoom(id));
            }
            4 => {
                server.ask(id, CoordinatorRequest::LeaveServer);
            }
            5 => {
                server.handle(CoordinatorMsg::Signal(100 + id as i64));
            }
            6 if joined && !seated => {
                server.ask(id, CoordinatorRequest::JoinRoom("r1".to_string(), id));
            }
            _ => {}
        }
        server.agree();
    }
}

/// One connection: its session and the handle it is known by.
struct Connection {
    id: u128,
    session: ClientProcess,
}

/// Follow what a session asks for until it has nothing more to ask. Says
/// whether the session goes on.
fn follow(server: &mut Server, connection: &mut Connection, first: ClientAction) -> bool {
    let mut action = first;
    loop {
        action = match action {
            ClientAction::Ask(request) => {
                // An honest session is never refused.
                let answer = server.ask(connection.id, request.clone());
                connection.session.on_reply(&request, answer)
            }
            ClientAction::ToRoom { room, message } => {
                assert_eq!(server.coordinator.room_of(connection.id), Some(room));
                let step = server.rooms.get_mut(&room).unwrap().handle(message);
                assert!(step.running);
                server.sent.extend(step.deliveries);
                ClientAction::Nothing
            }
            ClientAction::Write(_) | ClientAction::Nothing => return true,
            ClientAction::Stop { leave } | ClientAction::Fail { leave, .. } => {
                assert_eq!(leave, server.coordinator.has_session(connection.id));
                if leave {
                    server.ask(connection.id, CoordinatorRequest::LeaveServer);
                }
                return false;
            }
        };
    }
}

#[test]
fn honest_sessions_are_never_refused() {
    let mut server = Server::new();
    let mut next_id = 1u128;
    let mut connections: Vec<Connection> = Vec::new();
    for _ in 0..3 {
        connections.push(Connection { id: next_id, session: ClientProcess::new(next_id) });
        next_id += 1;
    }
    // A fixed stream of numbers decides who sends what.
    let mut seed: u64 = 0x2545_f491_4f6c_dd1d;
    let mut draw = |bound: u64| {
        seed ^= seed << 13;
        seed ^= seed >> 7;
        seed ^= seed << 17;
        seed % bound
    };
    let names = ["alice", "bob", "carol", "dave"];
    let rooms = ["r1", "r2"];
    for _ in 0..3000 {
        let who = draw(3) as usize;
        let message = match draw(9) {
            0 | 1 => MessageFromClient::JoinServer(names[draw(4) as usize].to_string()),
            2 => MessageFromClient::CreateRoom(rooms[draw(2) as usize].to_string()),
            3 | 4 => MessageFromClient::JoinRoom(rooms[draw(2) as usize].to_string()),
            5 => MessageFromClient::LeaveRoom,
            6 => MessageFromClient::GameAction(GameAction::PlaceNode(
                draw(4) as usize,
                draw(4) as usize,
            )),
            7 => MessageFromClient::GameAction(GameAction::Restart),
            _ => MessageFromClient::LeaveServer,
        };
        let connection = &mut connections[who];
        let first = if draw(40) == 0 {
            connection.session.handle(ClientMsg::ClientDropped)
        } else {
            connection.session.handle(ClientMsg::MessageFromClient(message))
        };
        if !follow(&mut server, connection, first) {
            // The connection is over; another takes its place.
            assert!(!server.coordinator.has_session(connection.id));
            *connection = Connection { id: next_id, session: ClientProcess::new(next_id) };
            next_id += 1;
        }
        // The directory and the rooms say the same, and each session knows
        // where the coordinator has it.
        assert_eq!(server.coordinator.room_count(), server.rooms.len());
        let mut seated = 0;
        for connection in &connections {
            assert_eq!(connection.session.joined(), server.coordinator.has_session(connection.id));
            assert_eq!(
                connection.session.current_room(),
                server.coordinator.room_of(connection.id)
            );
            if connection.session.current_room().is_some() {
                seated += 1;
            }
        }
        let members: usize = server.rooms.values().map(|room| room.len()).sum();
        assert_eq!(members, seated);
        let joined = connections.iter().filter(|c| c.session.joined()).count();
        assert_eq!(server.coordinator.session_count(), joined);
    }
    assert!(next_id > 10);
    assert!(!server.sent.is_empty());
}
