use gamerooms::coordinator::{Coordinator, CoordinatorEffect, CoordinatorMsg, CoordinatorRequest};
use gamerooms::registry::{CoordinatorError, CoordinatorResponse};
use gamerooms::room::RoomMsg;

const ALICE: u128 = 11;
const BOB: u128 = 22;
const CAROL: u128 = 33;

fn request(sender: u128, data: CoordinatorRequest) -> CoordinatorMsg {
    // Each session is linked under the tag that its handle gives.
    CoordinatorMsg::Request { sender, link: sender as i64, data }
}

fn answer(effects: &[CoordinatorEffect]) -> CoordinatorResponse {
    match effects.last() {
        Some(CoordinatorEffect::Reply { response, .. }) => *response,
        other => panic!("no answer but {:?}", other),
    }
}

fn ask(coordinator: &mut Coordinator, sender: u128, data: CoordinatorRequest) -> CoordinatorResponse {
    answer(&coordinator.handle(request(sender, data)).unwrap())
}

fn join(coordinator: &mut Coordinator, sender: u128, name: &str) -> CoordinatorResponse {
    ask(coordinator, sender, CoordinatorRequest::JoinServer(name.to_string()))
}

#[test]
fn a_name_is_held_once() {
    let mut coordinator = Coordinator::new(Some(2));
    assert_eq!(join(&mut coordinator, ALICE, "alice"), CoordinatorResponse::ServerJoined);
    assert_eq!(join(&mut coordinator, BOB, "alice"), CoordinatorResponse::UsernameAlreadyTaken);
    assert_eq!(join(&mut coordinator, ALICE, "alice"), CoordinatorResponse::UsernameAlreadyTaken);
    assert_eq!(coordinator.session_count(), 1);
    assert!(coordinator.has_session(ALICE));
    assert!(!coordinator.has_session(BOB));
    assert!(coordinator.is_name_taken(&"alice".to_string()));

    // The name is free again once its holder has left.
    assert_eq!(
        ask(&mut coordinator, ALICE, CoordinatorRequest::LeaveServer),
        CoordinatorResponse::ServerLeft
    );
    assert_eq!(join(&mut coordinator, BOB, "alice"), CoordinatorResponse::ServerJoined);
    assert_eq!(coordinator.session_count(), 1);
}

#[test]
fn create_room_starts_a_room_with_its_creator() {
    let mut coordinator = Coordinator::new(Some(2));
    join(&mut coordinator, ALICE, "alice");
    let effects = coordinator
        .handle(request(ALICE, CoordinatorRequest::CreateRoom("r1".to_string(), ALICE)))
        .unwrap();
    assert_eq!(effects.len(), 3);
    let room = match &effects[0] {
        CoordinatorEffect::Spawn { room, name } => {
            assert_eq!(name, "r1");
            *room
        }
        other => panic!("unexpected {:?}", other),
    };
    match &effects[1] {
        CoordinatorEffect::ToRoom { room: to, message: RoomMsg::JoinRoom(client) } => {
            assert_eq!(*to, room);
            assert_eq!(client.username, "alice");
            assert_eq!(client.process, ALICE);
        }
        other => panic!("unexpected {:?}", other),
    }
    match &effects[2] {
        CoordinatorEffect::Reply { to, response } => {
            assert_eq!(*to, ALICE);
            assert_eq!(*response, CoordinatorResponse::RoomCreated(room));
        }
        other => panic!("unexpected {:?}", other),
    }
    assert_eq!(coordinator.occupancy(&"r1".to_string()), Some(1));
    assert_eq!(coordinator.room_of(ALICE), Some(room));
    assert_eq!(coordinator.room_count(), 1);
}

#[test]
fn a_room_name_is_held_once() {
    let mut coordinator = Coordinator::new(None);
    join(&mut coordinator, ALICE, "alice");
    join(&mut coordinator, BOB, "bob");
    assert!(matches!(
        ask(&mut coordinator, ALICE, CoordinatorRequest::CreateRoom("r1".to_string(), ALICE)),
        CoordinatorResponse::RoomCreated(_)
    ));
    assert_eq!(
        ask(&mut coordinator, BOB, CoordinatorRequest::CreateRoom("r1".to_string(), BOB)),
        CoordinatorResponse::RoomNameAlreadyTaken
    );
    assert_eq!(coordinator.occupancy(&"r1".to_string()), Some(1));
    assert_eq!(coordinator.room_of(BOB), None);
}

#[test]
fn rooms_get_different_handles() {
    let mut coordinator = Coordinator::new(None);
    join(&mut coordinator, ALICE, "alice");
    join(&mut coordinator, BOB, "bob");
    let first = ask(&mut coordinator, ALICE, CoordinatorRequest::CreateRoom("r1".to_string(), ALICE));
    let second = ask(&mut coordinator, BOB, CoordinatorRequest::CreateRoom("r2".to_string(), BOB));
    assert_eq!(first, CoordinatorResponse::RoomCreated(0));
    assert_eq!(second, CoordinatorResponse::RoomCreated(1));
    // A handle is not used again when its room is gone.
    ask(&mut coordinator, ALICE, CoordinatorRequest::LeaveRoom(ALICE));
    let third = ask(&mut coordinator, ALICE, CoordinatorRequest::CreateRoom("r1".to_string(), ALICE));
    assert_eq!(third, CoordinatorResponse::RoomCreated(2));
}

#[test]
fn join_room_counts_one_more() {
    let mut coordinator = Coordinator::new(Some(3));
    join(&mut coordinator, ALICE, "alice");
    join(&mut coordinator, BOB, "bob");
    let created = ask(&mut coordinator, ALICE, CoordinatorRequest::CreateRoom("r1".to_string(), ALICE));
    let room = match created {
        CoordinatorResponse::RoomCreated(room) => room,
        other => panic!("unexpected {:?}", other),
    };
    let effects = coordinator
        .handle(request(BOB, CoordinatorRequest::JoinRoom("r1".to_string(), BOB)))
        .unwrap();
    assert_eq!(effects.len(), 2);
    match &effects[0] {
        CoordinatorEffect::ToRoom { room: to, message: RoomMsg::JoinRoom(client) } => {
            assert_eq!(*to, room);
            assert_eq!(client.username, "bob");
            assert_eq!(client.process, BOB);
        }
        other => panic!("unexpected {:?}", other),
    }
    assert_eq!(answer(&effects), CoordinatorResponse::RoomJoined(room));
    assert_eq!(coordinator.occupancy(&"r1".to_string()), Some(2));
    assert_eq!(coordinator.room_of(BOB), Some(room));
}

#[test]
fn join_room_without_a_room() {
    let mut coordinator = Coordinator::new(Some(2));
    join(&mut coordinator, ALICE, "alice");
    assert_eq!(
        ask(&mut coordinator, ALICE, CoordinatorRequest::JoinRoom("nowhere".to_string(), ALICE)),
        CoordinatorResponse::RoomDoesNotExist
    );
    assert_eq!(coordinator.room_of(ALICE), None);
    assert_eq!(coordinator.occupancy(&"nowhere".to_string()), None);
}

#[test]
fn a_full_room_takes_nobody() {
    // A room of two that is full: carol is refused and the room counts two.
    let mut coordinator = Coordinator::new(Some(2));
    join(&mut coordinator, ALICE, "alice");
    join(&mut coordinator, BOB, "bob");
    join(&mut coordinator, CAROL, "carol");
    ask(&mut coordinator, ALICE, CoordinatorRequest::CreateRoom("r1".to_string(), ALICE));
    ask(&mut coordinator, BOB, CoordinatorRequest::JoinRoom("r1".to_string(), BOB));
    assert_eq!(coordinator.occupancy(&"r1".to_string()), Some(2));

    let effects = coordinator
        .handle(request(CAROL, CoordinatorRequest::JoinRoom("r1".to_string(), CAROL)))
        .unwrap();
    assert_eq!(effects.len(), 1);
    assert_eq!(answer(&effects), CoordinatorResponse::RoomFull);
    assert_eq!(coordinator.occupancy(&"r1".to_string()), Some(2));
    assert_eq!(coordinator.room_of(CAROL), None);

    // The coordinator goes on: once bob has left, carol gets in.
    assert_eq!(
        ask(&mut coordinator, BOB, CoordinatorRequest::LeaveRoom(BOB)),
        CoordinatorResponse::RoomLeft
    );
    assert!(matches!(
        ask(&mut coordinator, CAROL, CoordinatorRequest::JoinRoom("r1".to_string(), CAROL)),
        CoordinatorResponse::RoomJoined(_)
    ));
    assert_eq!(coordinator.occupancy(&"r1".to_string()), Some(2));
}

#[test]
fn a_room_without_limit_takes_everybody() {
    let mut coordinator = Coordinator::new(None);
    join(&mut coordinator, 1, "one");
    ask(&mut coordinator, 1, CoordinatorRequest::CreateRoom("hall".to_string(), 1));
    for id in 2..40u128 {
        join(&mut coordinator, id, &format!("guest{}", id));
        assert!(matches!(
            ask(&mut coordinator, id, CoordinatorRequest::JoinRoom("hall".to_string(), id)),
            CoordinatorResponse::RoomJoined(_)
        ));
        assert_eq!(coordinator.occupancy(&"hall".to_string()), Some(id as usize));
    }
}

#[test]
fn a_limit_of_nothing_still_lets_a_room_be_created() {
    let mut coordinator = Coordinator::new(Some(0));
    join(&mut coordinator, ALICE, "alice");
    join(&mut coordinator, BOB, "bob");
    assert!(matches!(
        ask(&mut coordinator, ALICE, CoordinatorRequest::CreateRoom("r1".to_string(), ALICE)),
        CoordinatorResponse::RoomCreated(_)
    ));
    assert_eq!(
        ask(&mut coordinator, BOB, CoordinatorRequest::JoinRoom("r1".to_string(), BOB)),
        CoordinatorResponse::RoomFull
    );
    assert_eq!(coordinator.occupancy(&"r1".to_string()), Some(1));
}

#[test]
fn leave_room_counts_one_less_and_the_last_takes_the_entry() {
    let mut coordinator = Coordinator::new(Some(2));
    join(&mut coordinator, ALICE, "alice");
    join(&mut coordinator, BOB, "bob");
    ask(&mut coordinator, ALICE, CoordinatorRequest::CreateRoom("r1".to_string(), ALICE));
    ask(&mut coordinator, BOB, CoordinatorRequest::JoinRoom("r1".to_string(), BOB));

    let effects = coordinator.handle(request(ALICE, CoordinatorRequest::LeaveRoom(ALICE))).unwrap();
    assert_eq!(effects.len(), 2);
    match &effects[0] {
        CoordinatorEffect::ToRoom { message: RoomMsg::LeaveRoom(client), .. } => {
            assert_eq!(client.username, "alice");
        }
        other => panic!("unexpected {:?}", other),
    }
    assert_eq!(answer(&effects), CoordinatorResponse::RoomLeft);
    assert_eq!(coordinator.occupancy(&"r1".to_string()), Some(1));
    assert_eq!(coordinator.room_of(ALICE), None);

    ask(&mut coordinator, BOB, CoordinatorRequest::LeaveRoom(BOB));
    assert_eq!(coordinator.occupancy(&"r1".to_string()), None);
    assert_eq!(coordinator.room_count(), 0);
    assert_eq!(coordinator.session_count(), 2);
}

#[test]
fn leave_server_from_within_a_room_tells_the_room() {
    let mut coordinator = Coordinator::new(Some(2));
    join(&mut coordinator, ALICE, "alice");
    join(&mut coordinator, BOB, "bob");
    ask(&mut coordinator, ALICE, CoordinatorRequest::CreateRoom("r1".to_string(), ALICE));
    ask(&mut coordinator, BOB, CoordinatorRequest::JoinRoom("r1".to_string(), BOB));
    let effects = coordinator.handle(request(BOB, CoordinatorRequest::LeaveServer)).unwrap();
    assert_eq!(effects.len(), 2);
    match &effects[0] {
        CoordinatorEffect::ToRoom { room, message: RoomMsg::Drop(username) } => {
            assert_eq!(Some(*room), coordinator.room_of(ALICE));
            assert_eq!(username, "bob");
        }
        other => panic!("unexpected {:?}", other),
    }
    assert_eq!(answer(&effects), CoordinatorResponse::ServerLeft);
    assert_eq!(coordinator.occupancy(&"r1".to_string()), Some(1));
    assert!(!coordinator.has_session(BOB));
}

#[test]
fn a_signal_strikes_the_session_and_counts_one_less() {
    let mut coordinator = Coordinator::new(Some(2));
    join(&mut coordinator, ALICE, "alice");
    join(&mut coordinator, BOB, "bob");
    ask(&mut coordinator, ALICE, CoordinatorRequest::CreateRoom("r1".to_string(), ALICE));
    ask(&mut coordinator, BOB, CoordinatorRequest::JoinRoom("r1".to_string(), BOB));

    let effects = coordinator.handle(CoordinatorMsg::Signal(BOB as i64)).unwrap();
    assert_eq!(effects.len(), 1);
    assert!(matches!(
        &effects[0],
        CoordinatorEffect::ToRoom { message: RoomMsg::Drop(username), .. } if username == "bob"
    ));
    assert!(!coordinator.has_session(BOB));
    assert!(coordinator.has_session(ALICE));
    assert_eq!(coordinator.occupancy(&"r1".to_string()), Some(1));

    // A tag that nobody is linked under means nothing.
    assert!(coordinator.handle(CoordinatorMsg::Signal(999)).unwrap().is_empty());
    assert_eq!(coordinator.session_count(), 1);
}

#[test]
fn a_lost_connection_is_cleaned_up_once() {
    for reader_first in [true, false] {
        let mut coordinator = Coordinator::new(Some(2));
        join(&mut coordinator, ALICE, "alice");
        join(&mut coordinator, BOB, "bob");
        ask(&mut coordinator, ALICE, CoordinatorRequest::CreateRoom("r1".to_string(), ALICE));
        ask(&mut coordinator, BOB, CoordinatorRequest::JoinRoom("r1".to_string(), BOB));

        let by_reader = request(BOB, CoordinatorRequest::LeaveServer);
        let by_monitor = CoordinatorMsg::Signal(BOB as i64);
        let (first, second) =
            if reader_first { (by_reader, by_monitor) } else { (by_monitor, by_reader) };

        let effects = coordinator.handle(first).unwrap();
        let drops = effects
            .iter()
            .filter(|e| matches!(e, CoordinatorEffect::ToRoom { message: RoomMsg::Drop(_), .. }))
            .count();
        assert_eq!(drops, 1);
        assert_eq!(coordinator.occupancy(&"r1".to_string()), Some(1));

        let effects = coordinator.handle(second).unwrap();
        assert!(effects.iter().all(|e| matches!(e, CoordinatorEffect::Reply { .. })));
        assert_eq!(coordinator.occupancy(&"r1".to_string()), Some(1));
        assert_eq!(coordinator.session_count(), 1);
    }
}

#[test]
fn joining_again_under_another_name_starts_over() {
    let mut coordinator = Coordinator::new(Some(2));
    join(&mut coordinator, ALICE, "alice");
    ask(&mut coordinator, ALICE, CoordinatorRequest::CreateRoom("r1".to_string(), ALICE));
    let effects = coordinator
        .handle(request(ALICE, CoordinatorRequest::JoinServer("alicia".to_string())))
        .unwrap();
    assert_eq!(effects.len(), 2);
    assert!(matches!(
        &effects[0],
        CoordinatorEffect::ToRoom { message: RoomMsg::Drop(username), .. } if username == "alice"
    ));
    assert_eq!(answer(&effects), CoordinatorResponse::ServerJoined);
    assert_eq!(coordinator.session_count(), 1);
    assert_eq!(coordinator.room_count(), 0);
    assert_eq!(coordinator.room_of(ALICE), None);
    assert!(!coordinator.is_name_taken(&"alice".to_string()));
    assert!(coordinator.is_name_taken(&"alicia".to_string()));
}

#[test]
fn requests_that_cannot_be_answered() {
    let mut coordinator = Coordinator::new(Some(2));
    // Nobody has joined.
    assert_eq!(
        coordinator
            .handle(request(ALICE, CoordinatorRequest::CreateRoom("r1".to_string(), ALICE)))
            .err(),
        Some(CoordinatorError::UnknownSession)
    );
    assert_eq!(
        coordinator.handle(request(ALICE, CoordinatorRequest::LeaveRoom(ALICE))).err(),
        Some(CoordinatorError::UnknownSession)
    );
    join(&mut coordinator, ALICE, "alice");
    join(&mut coordinator, BOB, "bob");
    assert_eq!(
        coordinator.handle(request(ALICE, CoordinatorRequest::LeaveRoom(ALICE))).err(),
        Some(CoordinatorError::NotInRoom)
    );
    ask(&mut coordinator, ALICE, CoordinatorRequest::CreateRoom("r1".to_string(), ALICE));
    ask(&mut coordinator, BOB, CoordinatorRequest::CreateRoom("r2".to_string(), BOB));
    assert_eq!(
        coordinator
            .handle(request(ALICE, CoordinatorRequest::CreateRoom("r3".to_string(), ALICE)))
            .err(),
        Some(CoordinatorError::AlreadyInRoom)
    );
    assert_eq!(
        coordinator
            .handle(request(ALICE, CoordinatorRequest::JoinRoom("r2".to_string(), ALICE)))
            .err(),
        Some(CoordinatorError::AlreadyInRoom)
    );
    // Nothing has changed.
    assert_eq!(coordinator.room_count(), 2);
    assert_eq!(coordinator.occupancy(&"r1".to_string()), Some(1));
    assert_eq!(coordinator.occupancy(&"r2".to_string()), Some(1));
    // A stranger still learns that a room is unknown, full or that a name is
    // taken.
    assert_eq!(
        ask(&mut coordinator, CAROL, CoordinatorRequest::JoinRoom("r9".to_string(), CAROL)),
        CoordinatorResponse::RoomDoesNotExist
    );
    assert_eq!(
        ask(&mut coordinator, CAROL, CoordinatorRequest::CreateRoom("r1".to_string(), CAROL)),
        CoordinatorResponse::RoomNameAlreadyTaken
    );
    assert_eq!(
        coordinator
            .handle(request(CAROL, CoordinatorRequest::JoinRoom("r1".to_string(), CAROL)))
            .err(),
        Some(CoordinatorError::UnknownSession)
    );
}

#[test]
fn leave_server_of_a_stranger_is_answered() {
    let mut coordinator = Coordinator::new(Some(2));
    let effects = coordinator.handle(request(ALICE, CoordinatorRequest::LeaveServer)).unwrap();
    assert_eq!(effects.len(), 1);
    assert_eq!(answer(&effects), CoordinatorResponse::ServerLeft);
}

#[test]
fn a_tag_stands_for_one_link() {
    let mut coordinator = Coordinator::new(Some(2));
    let tagged = |sender: u128, link: i64, name: &str| CoordinatorMsg::Request {
        sender,
        link,
        data: CoordinatorRequest::JoinServer(name.to_string()),
    };
    coordinator.handle(tagged(ALICE, 7, "alice")).unwrap();
    ask(&mut coordinator, ALICE, CoordinatorRequest::CreateRoom("r1".to_string(), ALICE));
    coordinator.handle(tagged(BOB, 8, "bob")).unwrap();
    ask(&mut coordinator, BOB, CoordinatorRequest::JoinRoom("r1".to_string(), BOB));

    // carol comes under the tag that alice was linked under: that link is
    // gone, and alice with it.
    let effects = coordinator.handle(tagged(CAROL, 7, "carol")).unwrap();
    assert_eq!(effects.len(), 2);
    assert!(matches!(
        &effects[0],
        CoordinatorEffect::ToRoom { message: RoomMsg::Drop(username), .. } if username == "alice"
    ));
    assert_eq!(answer(&effects), CoordinatorResponse::ServerJoined);
    assert!(!coordinator.has_session(ALICE));
    assert!(coordinator.has_session(CAROL));
    assert_eq!(coordinator.session_count(), 2);
    assert_eq!(coordinator.occupancy(&"r1".to_string()), Some(1));

    // A signal under the tag now means carol, and nobody else.
    let effects = coordinator.handle(CoordinatorMsg::Signal(7)).unwrap();
    assert!(effects.is_empty());
    assert!(!coordinator.has_session(CAROL));
    assert!(coordinator.has_session(BOB));
    assert!(coordinator.handle(CoordinatorMsg::Signal(7)).unwrap().is_empty());
    assert_eq!(coordinator.session_count(), 1);

    // A name that is taken is refused before anybody is struck.
    let effects = coordinator.handle(tagged(CAROL, 8, "bob")).unwrap();
    assert_eq!(answer(&effects), CoordinatorResponse::UsernameAlreadyTaken);
    assert!(coordinator.has_session(BOB));
}
