use gamerooms::client::{
    reader_step, ClientAction, ClientMsg, ClientProcess, ProtocolViolation, ReadEvent, ReaderFlow,
};
use gamerooms::coordinator::CoordinatorRequest;
use gamerooms::message::{GameAction, MessageFromClient, MessageFromServer};
use gamerooms::registry::CoordinatorResponse;
use gamerooms::room::RoomMsg;

const ME: u128 = 77;

fn from_client(session: &mut ClientProcess, message: MessageFromClient) -> ClientAction {
    session.handle(ClientMsg::MessageFromClient(message))
}

fn joined(name: &str) -> ClientProcess {
    let mut session = ClientProcess::new(ME);
    let action = session.on_reply(
        &CoordinatorRequest::JoinServer(name.to_string()),
        CoordinatorResponse::ServerJoined,
    );
    assert!(matches!(action, ClientAction::Write(MessageFromServer::ServerJoined)));
    session
}

fn seated(name: &str, room: u64) -> ClientProcess {
    let mut session = joined(name);
    let action = session.on_reply(
        &CoordinatorRequest::JoinRoom("r1".to_string(), ME),
        CoordinatorResponse::RoomJoined(room),
    );
    assert!(matches!(action, ClientAction::Write(MessageFromServer::RoomJoined)));
    session
}

#[test]
fn join_server_is_asked_and_answered() {
    let mut session = ClientProcess::new(ME);
    assert!(!session.joined());
    match from_client(&mut session, MessageFromClient::JoinServer("alice".to_string())) {
        ClientAction::Ask(CoordinatorRequest::JoinServer(name)) => assert_eq!(name, "alice"),
        other => panic!("unexpected {:?}", other),
    }
    // Asking changes nothing yet.
    assert!(!session.joined());
    let action = session.on_reply(
        &CoordinatorRequest::JoinServer("alice".to_string()),
        CoordinatorResponse::UsernameAlreadyTaken,
    );
    assert!(matches!(action, ClientAction::Write(MessageFromServer::UsernameAlreadyTaken)));
    assert!(!session.joined());
    let action = session.on_reply(
        &CoordinatorRequest::JoinServer("alicia".to_string()),
        CoordinatorResponse::ServerJoined,
    );
    assert!(matches!(action, ClientAction::Write(MessageFromServer::ServerJoined)));
    assert!(session.joined());
}

#[test]
fn rooms_are_asked_for_in_the_name_of_the_session() {
    let mut session = joined("alice");
    match from_client(&mut session, MessageFromClient::CreateRoom("r1".to_string())) {
        ClientAction::Ask(CoordinatorRequest::CreateRoom(name, client)) => {
            assert_eq!(name, "r1");
            assert_eq!(client, ME);
        }
        other => panic!("unexpected {:?}", other),
    }
    match from_client(&mut session, MessageFromClient::JoinRoom("r2".to_string())) {
        ClientAction::Ask(CoordinatorRequest::JoinRoom(name, client)) => {
            assert_eq!(name, "r2");
            assert_eq!(client, ME);
        }
        other => panic!("unexpected {:?}", other),
    }
    assert_eq!(session.current_room(), None);
}

#[test]
fn answers_about_rooms_are_passed_on() {
    let mut session = joined("alice");
    let create = || CoordinatorRequest::CreateRoom("r1".to_string(), ME);
    let join = || CoordinatorRequest::JoinRoom("r1".to_string(), ME);
    assert!(matches!(
        session.on_reply(&create(), CoordinatorResponse::RoomNameAlreadyTaken),
        ClientAction::Write(MessageFromServer::RoomNameAlreadyTaken)
    ));
    assert!(matches!(
        session.on_reply(&join(), CoordinatorResponse::RoomFull),
        ClientAction::Write(MessageFromServer::RoomFull)
    ));
    assert!(matches!(
        session.on_reply(&join(), CoordinatorResponse::RoomDoesNotExist),
        ClientAction::Write(MessageFromServer::RoomDoesNotExist)
    ));
    assert_eq!(session.current_room(), None);
    assert!(matches!(
        session.on_reply(&create(), CoordinatorResponse::RoomCreated(4)),
        ClientAction::Write(MessageFromServer::RoomCreated)
    ));
    assert_eq!(session.current_room(), Some(4));
}

#[test]
fn an_answer_that_does_not_fit_is_a_violation() {
    let mut session = joined("alice");
    assert!(matches!(
        session.on_reply(
            &CoordinatorRequest::JoinRoom("r1".to_string(), ME),
            CoordinatorResponse::RoomCreated(1)
        ),
        ClientAction::Fail { violation: ProtocolViolation::UnexpectedReply, leave: true }
    ));
    let mut stranger = ClientProcess::new(ME);
    assert!(matches!(
        stranger.on_reply(
            &CoordinatorRequest::JoinServer("x".to_string()),
            CoordinatorResponse::RoomLeft
        ),
        ClientAction::Fail { violation: ProtocolViolation::UnexpectedReply, leave: false }
    ));
}

#[test]
fn a_move_goes_to_the_room() {
    let mut session = seated("alice", 5);
    match from_client(&mut session, MessageFromClient::GameAction(GameAction::PlaceNode(1, 2))) {
        ClientAction::ToRoom { room, message: RoomMsg::Action(client, action) } => {
            assert_eq!(room, 5);
            assert_eq!(client.username, "alice");
            assert_eq!(client.process, ME);
            assert_eq!(action, GameAction::PlaceNode(1, 2));
        }
        other => panic!("unexpected {:?}", other),
    }
}

#[test]
fn a_move_outside_a_room_is_a_violation() {
    let mut session = joined("alice");
    assert!(matches!(
        from_client(&mut session, MessageFromClient::GameAction(GameAction::Restart)),
        ClientAction::Fail { violation: ProtocolViolation::ActionOutsideRoom, leave: true }
    ));
    let mut stranger = ClientProcess::new(ME);
    assert!(matches!(
        from_client(&mut stranger, MessageFromClient::GameAction(GameAction::Restart)),
        ClientAction::Fail { violation: ProtocolViolation::ActionOutsideRoom, leave: false }
    ));
}

#[test]
fn one_room_at_a_time() {
    let mut session = seated("alice", 5);
    assert!(matches!(
        from_client(&mut session, MessageFromClient::CreateRoom("r2".to_string())),
        ClientAction::Fail { violation: ProtocolViolation::AlreadyInRoom, leave: true }
    ));
    assert!(matches!(
        from_client(&mut session, MessageFromClient::JoinRoom("r2".to_string())),
        ClientAction::Fail { violation: ProtocolViolation::AlreadyInRoom, leave: true }
    ));
    assert_eq!(session.current_room(), Some(5));
}

#[test]
fn no_room_before_the_server() {
    let mut session = ClientProcess::new(ME);
    assert!(matches!(
        from_client(&mut session, MessageFromClient::CreateRoom("r1".to_string())),
        ClientAction::Fail { violation: ProtocolViolation::NotJoined, leave: false }
    ));
    assert!(matches!(
        from_client(&mut session, MessageFromClient::JoinRoom("r1".to_string())),
        ClientAction::Fail { violation: ProtocolViolation::NotJoined, leave: false }
    ));
    assert!(matches!(
        from_client(&mut session, MessageFromClient::LeaveRoom),
        ClientAction::Fail { violation: ProtocolViolation::NotInRoom, leave: false }
    ));
}

#[test]
fn leave_room_is_asked_once() {
    let mut session = seated("alice", 5);
    match from_client(&mut session, MessageFromClient::LeaveRoom) {
        ClientAction::Ask(CoordinatorRequest::LeaveRoom(client)) => assert_eq!(client, ME),
        other => panic!("unexpected {:?}", other),
    }
    assert_eq!(session.current_room(), None);
    assert!(matches!(
        session.on_reply(&CoordinatorRequest::LeaveRoom(ME), CoordinatorResponse::RoomLeft),
        ClientAction::Nothing
    ));
    assert!(matches!(
        from_client(&mut session, MessageFromClient::LeaveRoom),
        ClientAction::Fail { violation: ProtocolViolation::NotInRoom, leave: true }
    ));
}

#[test]
fn the_end_of_a_session_cleans_up_if_there_is_anything_to_clean() {
    let mut stranger = ClientProcess::new(ME);
    assert!(matches!(
        stranger.handle(ClientMsg::ClientDropped),
        ClientAction::Stop { leave: false }
    ));
    assert!(matches!(
        from_client(&mut stranger, MessageFromClient::LeaveServer),
        ClientAction::Stop { leave: false }
    ));
    let mut session = seated("alice", 5);
    assert!(matches!(session.handle(ClientMsg::ClientDropped), ClientAction::Stop { leave: true }));
    assert!(matches!(
        from_client(&mut session, MessageFromClient::LeaveServer),
        ClientAction::Stop { leave: true }
    ));
    assert!(matches!(
        session.on_reply(&CoordinatorRequest::LeaveServer, CoordinatorResponse::ServerLeft),
        ClientAction::Stop { leave: false }
    ));
}

#[test]
fn what_a_room_says_is_written_out() {
    let mut session = seated("alice", 5);
    match session.handle(ClientMsg::RoomMessage(MessageFromServer::StateChanged(vec![1, 2, 3]))) {
        ClientAction::Write(MessageFromServer::StateChanged(bytes)) => {
            assert_eq!(bytes, vec![1, 2, 3])
        }
        other => panic!("unexpected {:?}", other),
    }
}

#[test]
fn joining_again_leaves_the_room_behind() {
    let mut session = seated("alice", 5);
    session.on_reply(
        &CoordinatorRequest::JoinServer("alicia".to_string()),
        CoordinatorResponse::ServerJoined,
    );
    assert_eq!(session.current_room(), None);
    assert!(session.joined());
}

#[test]
fn the_reader_reports_and_stops() {
    let step = reader_step(ReadEvent::Closed);
    assert!(matches!(step.forward, Some(ClientMsg::ClientDropped)));
    assert_eq!(step.flow, ReaderFlow::Stop);

    let step = reader_step(ReadEvent::TimedOut);
    assert!(matches!(step.forward, Some(ClientMsg::ClientDropped)));
    assert_eq!(step.flow, ReaderFlow::Stop);

    let step = reader_step(ReadEvent::Frame(MessageFromClient::LeaveRoom));
    assert!(matches!(
        step.forward,
        Some(ClientMsg::MessageFromClient(MessageFromClient::LeaveRoom))
    ));
    assert_eq!(step.flow, ReaderFlow::Continue);

    let step = reader_step(ReadEvent::Frame(MessageFromClient::LeaveServer));
    assert!(matches!(
        step.forward,
        Some(ClientMsg::MessageFromClient(MessageFromClient::LeaveServer))
    ));
    assert_eq!(step.flow, ReaderFlow::Stop);

    let step = reader_step(ReadEvent::Garbled);
    assert!(step.forward.is_none());
    assert_eq!(step.flow, ReaderFlow::Abort);
}
