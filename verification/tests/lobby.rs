//! Session-layer tests: handshake lifecycle, admission, quorum, profile
//! sync and the lobby roster, driven through the tick-step entry points.

use ludo_core::client::classify_outcome;
use ludo_core::client::LudoServerOutcome;
use ludo_core::game::LudoGameObject;
use ludo_core::game::LudoGameProfile;
use ludo_core::game::LudoGameProfileData;
use ludo_core::game::LudoGameState;
use ludo_core::packets::LudoGameIncomeHandshakePacket;
use ludo_core::packets::LudoGameIncomeProfilePacket;
use ludo_core::packets::LudoGameOutcomeDisconnectPacket;
use ludo_core::packets::LudoGameOutcomeGameStartPacket;
use ludo_core::packets::LudoGameOutcomeHandshakeCallbackPacket;
use ludo_core::packets::LudoGameOutcomePlayerProfilesPacket;
use ludo_core::packets::LudoGameOutcomeProfilePacket;
use ludo_core::server::LudoGameConfiguration;
use ludo_core::server::LudoServerAction;
use ludo_core::server::LudoServerCore;
use ludo_core::session::ClientSession;
use ludo_core::session::HandshakeState;

fn secret() -> Vec<u8> {
    vec![7u8; 32]
}

fn make_core(min: u8, max: u8) -> LudoServerCore {
    LudoServerCore::new(LudoGameConfiguration::new(min, max), secret(), Vec::new())
}

fn uid(tag: u8) -> Vec<u8> {
    vec![tag; 16]
}

fn handshake_msg(key: Vec<u8>) -> Vec<u8> {
    LudoGameIncomeHandshakePacket::new(key).encode()
}

fn profile_msg(tag: u8, nickname: &[u8]) -> Vec<u8> {
    LudoGameIncomeProfilePacket::new(LudoGameProfile::new(uid(tag), nickname.to_vec(), 20))
        .encode()
}

/// Connect a client and walk it to the enrolled, handshaked state.
fn enroll(core: &mut LudoServerCore, id: u64) {
    assert!(core.on_connect(id));
    let actions = core.on_message(id, &handshake_msg(secret()));
    assert!(actions.is_empty());
    let actions = core.on_handshake_timer(id);
    assert_eq!(actions.len(), 1);
}

fn session_state(core: &LudoServerCore, id: u64) -> Option<HandshakeState> {
    core.sessions
        .iter()
        .find(|s| s.connection_id == id)
        .map(|s| s.handshake)
}

#[test]
fn handshake_walks_the_state_chain() {
    let mut core = make_core(4, 4);
    assert!(core.on_connect(1));
    assert_eq!(session_state(&core, 1), Some(HandshakeState::Pending));
    core.on_message(1, &handshake_msg(secret()));
    assert_eq!(session_state(&core, 1), Some(HandshakeState::SecretOk));
    core.on_handshake_timer(1);
    assert_eq!(session_state(&core, 1), Some(HandshakeState::Handshaked));
}

#[test]
fn wrong_secret_disconnects_before_the_timer() {
    let mut core = make_core(4, 4);
    assert!(core.on_connect(1));
    let mut wrong = secret();
    wrong[0] ^= 0xff;
    let actions = core.on_message(1, &handshake_msg(wrong));
    assert_eq!(actions.len(), 1);
    assert!(matches!(
        actions[0],
        LudoServerAction::Disconnect { client_id: 1 }
    ));
    assert!(core.sessions.is_empty());
    // the timer that later fires for the evicted session does nothing
    let actions = core.on_handshake_timer(1);
    assert!(actions.is_empty());
}

#[test]
fn handshake_ignored_once_secret_ok() {
    let mut core = make_core(4, 4);
    assert!(core.on_connect(1));
    core.on_message(1, &handshake_msg(secret()));
    let mut wrong = secret();
    wrong[31] ^= 1;
    let actions = core.on_message(1, &handshake_msg(wrong));
    assert!(actions.is_empty());
    assert_eq!(session_state(&core, 1), Some(HandshakeState::SecretOk));
}

#[test]
fn admission_sends_exactly_one_ack() {
    let mut core = make_core(4, 4);
    assert!(core.on_connect(1));
    core.on_message(1, &handshake_msg(secret()));
    let actions = core.on_handshake_timer(1);
    assert_eq!(actions.len(), 1);
    match &actions[0] {
        LudoServerAction::Send { client_id, message } => {
            assert_eq!(*client_id, 1);
            assert_eq!(
                *message,
                LudoGameOutcomeHandshakeCallbackPacket::new().encode()
            );
        }
        _ => panic!("expected a send"),
    }
    assert_eq!(session_state(&core, 1), Some(HandshakeState::Handshaked));
}

#[test]
fn full_match_rejects_with_reason() {
    let mut core = make_core(1, 1);
    core.sessions.push(ClientSession {
        connection_id: 1,
        handshake: HandshakeState::Handshaked,
        profile: None,
    });
    core.sessions.push(ClientSession {
        connection_id: 2,
        handshake: HandshakeState::SecretOk,
        profile: None,
    });
    let actions = core.on_handshake_timer(2);
    assert_eq!(actions.len(), 2);
    match &actions[0] {
        LudoServerAction::Send { client_id, message } => {
            assert_eq!(*client_id, 2);
            assert_eq!(
                *message,
                LudoGameOutcomeDisconnectPacket::new(b"the game is already full".to_vec())
                    .encode()
            );
        }
        _ => panic!("expected a send"),
    }
    assert!(matches!(
        actions[1],
        LudoServerAction::Disconnect { client_id: 2 }
    ));
    assert_eq!(session_state(&core, 2), None);
    assert_eq!(session_state(&core, 1), Some(HandshakeState::Handshaked));
}

#[test]
fn running_match_rejects_with_reason() {
    let mut core = make_core(4, 4);
    assert!(core.on_connect(1));
    core.on_message(1, &handshake_msg(secret()));
    core.game = LudoGameObject {
        state: LudoGameState::InGame,
    };
    let actions = core.on_handshake_timer(1);
    assert_eq!(actions.len(), 2);
    match &actions[0] {
        LudoServerAction::Send { message, .. } => {
            assert_eq!(
                *message,
                LudoGameOutcomeDisconnectPacket::new(b"the game is already running".to_vec())
                    .encode()
            );
        }
        _ => panic!("expected a send"),
    }
    assert!(core.sessions.is_empty());
}

#[test]
fn silent_client_is_evicted_on_timeout() {
    let mut core = make_core(4, 4);
    assert!(core.on_connect(9));
    let actions = core.on_handshake_timer(9);
    assert_eq!(actions.len(), 1);
    assert!(matches!(
        actions[0],
        LudoServerAction::Disconnect { client_id: 9 }
    ));
    assert!(core.sessions.is_empty());
}

#[test]
fn quorum_of_four_starts_the_match() {
    let mut core = make_core(4, 4);
    for id in 1..=3u64 {
        enroll(&mut core, id);
    }
    let actions = core.try_start_match();
    assert!(actions.is_empty());
    assert_eq!(core.game.state, LudoGameState::Waiting);

    enroll(&mut core, 4);
    let actions = core.try_start_match();
    assert_eq!(actions.len(), 4);
    let start = LudoGameOutcomeGameStartPacket::new().encode();
    let mut ids: Vec<u64> = Vec::new();
    for action in &actions {
        match action {
            LudoServerAction::Send { client_id, message } => {
                assert_eq!(*message, start);
                ids.push(*client_id);
            }
            _ => panic!("expected a send"),
        }
    }
    ids.sort();
    assert_eq!(ids, vec![1, 2, 3, 4]);
    assert_eq!(core.game.state, LudoGameState::InGame);
}

#[test]
fn connect_rejected_when_full_or_running() {
    let mut core = make_core(1, 1);
    assert!(core.on_connect(1));
    assert!(!core.on_connect(2));
    let mut core = make_core(4, 4);
    core.game = LudoGameObject {
        state: LudoGameState::InGame,
    };
    assert!(!core.on_connect(1));
    assert!(core.sessions.is_empty());
}

#[test]
fn unknown_sender_is_disconnected() {
    let mut core = make_core(4, 4);
    let actions = core.on_message(77, &handshake_msg(secret()));
    assert_eq!(actions.len(), 1);
    assert!(matches!(
        actions[0],
        LudoServerAction::Disconnect { client_id: 77 }
    ));
}

#[test]
fn unmatched_message_is_dropped() {
    let mut core = make_core(4, 4);
    assert!(core.on_connect(1));
    let actions = core.on_message(1, &b"no packet kind at all".to_vec());
    assert!(actions.is_empty());
    assert_eq!(session_state(&core, 1), Some(HandshakeState::Pending));
}

#[test]
fn profile_sync_before_admission_is_dropped() {
    let mut core = make_core(4, 4);
    assert!(core.on_connect(1));
    let actions = core.on_message(1, &profile_msg(5, b"early"));
    assert!(actions.is_empty());
    assert!(core.profiles.is_empty());
}

#[test]
fn profile_sync_creates_a_zero_point_record() {
    let mut core = make_core(4, 4);
    enroll(&mut core, 1);
    let actions = core.on_message(1, &profile_msg(5, b"alice"));
    assert_eq!(actions.len(), 1);
    match &actions[0] {
        LudoServerAction::Send { client_id, message } => {
            assert_eq!(*client_id, 1);
            let expected =
                LudoGameOutcomeProfilePacket::new(LudoGameProfileData::new(uid(5), 0)).encode();
            assert_eq!(*message, expected);
        }
        _ => panic!("expected a send"),
    }
    assert_eq!(core.profiles.len(), 1);
    assert_eq!(core.profiles[0].unique_id, uid(5));
    assert_eq!(core.profiles[0].points, 0);
}

#[test]
fn persisted_record_is_served_without_a_new_one() {
    let store = vec![LudoGameProfileData::new(uid(5), 50)];
    let mut core =
        LudoServerCore::new(LudoGameConfiguration::new(4, 4), secret(), store);
    enroll(&mut core, 1);
    let actions = core.on_message(1, &profile_msg(5, b"alice"));
    assert_eq!(actions.len(), 1);
    match &actions[0] {
        LudoServerAction::Send { message, .. } => {
            let expected =
                LudoGameOutcomeProfilePacket::new(LudoGameProfileData::new(uid(5), 50)).encode();
            assert_eq!(*message, expected);
        }
        _ => panic!("expected a send"),
    }
    assert_eq!(core.profiles.len(), 1);
    assert_eq!(core.profiles[0].points, 50);
}

#[test]
fn profile_sync_is_idempotent() {
    let mut core = make_core(4, 4);
    let first = core.lookup_or_create(&uid(5));
    let second = core.lookup_or_create(&uid(5));
    assert_eq!(first.unique_id, uid(5));
    assert_eq!(second.unique_id, uid(5));
    assert_eq!(first.points, second.points);
    assert_eq!(core.profiles.len(), 1);
}

#[test]
fn roster_reaches_every_connected_session() {
    let mut core = make_core(4, 4);
    enroll(&mut core, 1);
    enroll(&mut core, 2);
    core.on_message(1, &profile_msg(1, b"alice"));
    core.on_message(2, &profile_msg(2, b"bob"));
    assert!(core.on_connect(3));  // still pending, gets the roster anyway

    let roster = core.build_roster();
    assert_eq!(roster.len(), 2);
    assert_eq!(roster[0].nickname, b"alice".to_vec());
    assert_eq!(roster[1].nickname, b"bob".to_vec());

    let expected = LudoGameOutcomePlayerProfilesPacket::new(roster).encode();
    let actions = core.broadcast_roster();
    assert_eq!(actions.len(), 3);
    let mut ids: Vec<u64> = Vec::new();
    for action in &actions {
        match action {
            LudoServerAction::Send { client_id, message } => {
                assert_eq!(*message, expected);
                ids.push(*client_id);
            }
            _ => panic!("expected a send"),
        }
    }
    ids.sort();
    assert_eq!(ids, vec![1, 2, 3]);
}

#[test]
fn no_roster_without_a_handshaked_session() {
    let mut core = make_core(4, 4);
    assert!(core.on_connect(1));
    let actions = core.broadcast_roster();
    assert!(actions.is_empty());
}

#[test]
fn shutdown_closes_the_lifecycle() {
    let mut core = make_core(4, 4);
    core.on_shutdown();
    assert_eq!(core.game.state, LudoGameState::Closing);
}

#[test]
fn client_classifies_server_messages() {
    let ack = LudoGameOutcomeHandshakeCallbackPacket::new().encode();
    assert!(matches!(
        classify_outcome(&ack),
        LudoServerOutcome::HandshakeAck
    ));

    let profile =
        LudoGameOutcomeProfilePacket::new(LudoGameProfileData::new(uid(5), 50)).encode();
    match classify_outcome(&profile) {
        LudoServerOutcome::Profile(d) => {
            assert_eq!(d.unique_id, uid(5));
            assert_eq!(d.points, 50);
        }
        _ => panic!("expected a profile"),
    }

    let bye = LudoGameOutcomeDisconnectPacket::new(b"bye".to_vec()).encode();
    match classify_outcome(&bye) {
        LudoServerOutcome::Disconnected(reason) => assert_eq!(reason, b"bye".to_vec()),
        _ => panic!("expected a disconnect"),
    }

    let start = LudoGameOutcomeGameStartPacket::new().encode();
    assert!(matches!(
        classify_outcome(&start),
        LudoServerOutcome::MatchStart
    ));

    let roster = LudoGameOutcomePlayerProfilesPacket::new(vec![LudoGameProfile::new(
        uid(1),
        b"alice".to_vec(),
        23,
    )])
    .encode();
    match classify_outcome(&roster) {
        LudoServerOutcome::Roster(list) => assert_eq!(list.len(), 1),
        _ => panic!("expected a roster"),
    }

    assert!(matches!(
        classify_outcome(&b"nothing".to_vec()),
        LudoServerOutcome::Unknown
    ));
}

#[test]
fn disconnect_destroys_the_session() {
    let mut core = make_core(4, 4);
    enroll(&mut core, 1);
    assert!(core.on_connect(2));
    core.on_disconnect(1);
    assert_eq!(session_state(&core, 1), None);
    assert_eq!(session_state(&core, 2), Some(HandshakeState::Pending));
}
