//! Wire-format tests: envelope shape, JSON payloads, round trips and the
//! decode error taxonomy.

use ludo_core::codec::LudoPacketError;
use ludo_core::game::profile_from_json;
use ludo_core::game::profile_to_json;
use ludo_core::game::profiles_from_json;
use ludo_core::game::profiles_to_json;
use ludo_core::game::LudoGameProfile;
use ludo_core::game::LudoGameProfileData;
use ludo_core::packets::LudoGameIncomeHandshakePacket;
use ludo_core::packets::LudoGameIncomeProfilePacket;
use ludo_core::packets::LudoGameOutcomeDisconnectPacket;
use ludo_core::packets::LudoGameOutcomeGameStartPacket;
use ludo_core::packets::LudoGameOutcomeHandshakeCallbackPacket;
use ludo_core::packets::LudoGameOutcomePlayerProfilesPacket;
use ludo_core::packets::LudoGameOutcomeProfilePacket;
use ludo_core::packets::LudoPacketType;

fn sample_uid() -> Vec<u8> {
    (0u8..16u8).collect()
}

fn sample_profile(nickname: &[u8], age: u8) -> LudoGameProfile {
    LudoGameProfile {
        unique_id: sample_uid(),
        nickname: nickname.to_vec(),
        age,
    }
}

#[test]
fn game_start_envelope_has_exact_bytes() {
    let packet = LudoGameOutcomeGameStartPacket::new();
    let bytes = packet.encode();
    assert_eq!(
        bytes,
        b"type: LudoGameOutcomeGameStartPacket, data: #[{}]#".to_vec()
    );
}

#[test]
fn disconnect_envelope_has_exact_bytes() {
    let packet = LudoGameOutcomeDisconnectPacket::new(b"hi".to_vec());
    let bytes = packet.encode();
    assert_eq!(
        bytes,
        b"type: LudoGameOutcomeDisconnectPacket, data: #[{\"reason\":\"hi\"}]#".to_vec()
    );
}

#[test]
fn handshake_round_trip() {
    let key: Vec<u8> = (100u8..132u8).collect();
    let packet = LudoGameIncomeHandshakePacket::new(key.clone());
    let decoded = LudoGameIncomeHandshakePacket::make_packet(&packet.encode()).unwrap();
    assert_eq!(decoded.key, key);
}

#[test]
fn handshake_callback_round_trip() {
    let packet = LudoGameOutcomeHandshakeCallbackPacket::new();
    assert!(LudoGameOutcomeHandshakeCallbackPacket::make_packet(&packet.encode()).is_ok());
}

#[test]
fn game_start_round_trip() {
    let packet = LudoGameOutcomeGameStartPacket::new();
    assert!(LudoGameOutcomeGameStartPacket::make_packet(&packet.encode()).is_ok());
}

#[test]
fn profile_request_round_trip() {
    let packet = LudoGameIncomeProfilePacket::new(sample_profile(b"alice", 23));
    let decoded = LudoGameIncomeProfilePacket::make_packet(&packet.encode()).unwrap();
    assert_eq!(decoded.profile.unique_id, sample_uid());
    assert_eq!(decoded.profile.nickname, b"alice".to_vec());
    assert_eq!(decoded.profile.age, 23);
}

#[test]
fn profile_request_round_trip_empty_nickname() {
    let packet = LudoGameIncomeProfilePacket::new(sample_profile(b"", 0));
    let decoded = LudoGameIncomeProfilePacket::make_packet(&packet.encode()).unwrap();
    assert_eq!(decoded.profile.nickname, Vec::<u8>::new());
    assert_eq!(decoded.profile.age, 0);
}

#[test]
fn profile_request_round_trip_escaped_nickname() {
    // quote, backslash, newline and tab all need escaping in JSON
    let nickname = b"a\"b\\c\nd\te".to_vec();
    let packet = LudoGameIncomeProfilePacket::new(sample_profile(&nickname, 255));
    let decoded = LudoGameIncomeProfilePacket::make_packet(&packet.encode()).unwrap();
    assert_eq!(decoded.profile.nickname, nickname);
    assert_eq!(decoded.profile.age, 255);
}

#[test]
fn profile_response_round_trip_zero_points() {
    let record = LudoGameProfileData::new(sample_uid(), 0);
    let packet = LudoGameOutcomeProfilePacket::new(record);
    let decoded = LudoGameOutcomeProfilePacket::make_packet(&packet.encode()).unwrap();
    assert_eq!(decoded.data.unique_id, sample_uid());
    assert_eq!(decoded.data.points, 0);
}

#[test]
fn profile_response_round_trip_max_points() {
    let record = LudoGameProfileData::new(sample_uid(), u128::MAX);
    let packet = LudoGameOutcomeProfilePacket::new(record);
    let decoded = LudoGameOutcomeProfilePacket::make_packet(&packet.encode()).unwrap();
    assert_eq!(decoded.data.points, u128::MAX);
}

#[test]
fn disconnect_round_trip_long_reason() {
    let reason: Vec<u8> = std::iter::repeat(b'x').take(4096).collect();
    let packet = LudoGameOutcomeDisconnectPacket::new(reason.clone());
    let decoded = LudoGameOutcomeDisconnectPacket::make_packet(&packet.encode()).unwrap();
    assert_eq!(decoded.reason, reason);
}

#[test]
fn roster_round_trip() {
    let list = vec![
        sample_profile(b"alice", 23),
        sample_profile(b"bob", 31),
    ];
    let packet = LudoGameOutcomePlayerProfilesPacket::new(list);
    let decoded = LudoGameOutcomePlayerProfilesPacket::make_packet(&packet.encode()).unwrap();
    assert_eq!(decoded.list.len(), 2);
    assert_eq!(decoded.list[0].nickname, b"alice".to_vec());
    assert_eq!(decoded.list[1].nickname, b"bob".to_vec());
}

#[test]
fn roster_round_trip_empty() {
    let packet = LudoGameOutcomePlayerProfilesPacket::new(Vec::new());
    let decoded = LudoGameOutcomePlayerProfilesPacket::make_packet(&packet.encode()).unwrap();
    assert!(decoded.list.is_empty());
}

#[test]
fn decode_wrong_kind() {
    let bytes = LudoGameOutcomeGameStartPacket::new().encode();
    let r = LudoGameOutcomeDisconnectPacket::make_packet(&bytes);
    assert!(matches!(r, Err(LudoPacketError::WrongKind)));
}

#[test]
fn decode_malformed_payload() {
    // names the kind, but the payload delimiters are missing
    let bytes = b"type: LudoGameOutcomeGameStartPacket, data: {}".to_vec();
    let r = LudoGameOutcomeGameStartPacket::make_packet(&bytes);
    assert!(matches!(r, Err(LudoPacketError::MalformedPayload)));
}

#[test]
fn decode_broken_json() {
    let bytes = b"type: LudoGameOutcomeDisconnectPacket, data: #[{\"reason\":12}]#".to_vec();
    let r = LudoGameOutcomeDisconnectPacket::make_packet(&bytes);
    assert!(matches!(r, Err(LudoPacketError::MalformedPayload)));
}

#[test]
fn delimiter_in_nickname_breaks_the_envelope() {
    // The envelope's closing delimiter is found by plain substring
    // search, so a nickname containing it corrupts the boundary: a
    // known defect of the format, pinned here as a regression case.
    let packet = LudoGameIncomeProfilePacket::new(sample_profile(b"ab]#cd", 20));
    let r = LudoGameIncomeProfilePacket::make_packet(&packet.encode());
    assert!(matches!(r, Err(LudoPacketError::MalformedPayload)));
}

#[test]
fn bracket_and_hash_apart_still_round_trip() {
    // `]` and `#` are harmless unless adjacent: only the exact two-byte
    // delimiter sequence corrupts the envelope
    let nickname = b"]x#y[#]".to_vec();
    let packet = LudoGameIncomeProfilePacket::new(sample_profile(&nickname, 20));
    let decoded = LudoGameIncomeProfilePacket::make_packet(&packet.encode()).unwrap();
    assert_eq!(decoded.profile.nickname, nickname);
}

#[test]
fn packet_directions() {
    assert_eq!(
        LudoGameIncomeHandshakePacket::new(vec![0u8; 32]).packet_type(),
        LudoPacketType::Income
    );
    assert_eq!(
        LudoGameOutcomeHandshakeCallbackPacket::new().packet_type(),
        LudoPacketType::Outcome
    );
    assert_eq!(
        LudoGameIncomeProfilePacket::new(sample_profile(b"a", 1)).packet_type(),
        LudoPacketType::Income
    );
    assert_eq!(
        LudoGameOutcomeProfilePacket::new(LudoGameProfileData::new(sample_uid(), 1)).packet_type(),
        LudoPacketType::Outcome
    );
    assert_eq!(
        LudoGameOutcomeDisconnectPacket::new(b"bye".to_vec()).packet_type(),
        LudoPacketType::Outcome
    );
    assert_eq!(
        LudoGameOutcomeGameStartPacket::new().packet_type(),
        LudoPacketType::Outcome
    );
}

#[test]
fn profiles_file_exact_bytes() {
    let list = vec![LudoGameProfileData::new(sample_uid(), 50)];
    let bytes = profiles_to_json(&list);
    assert_eq!(
        bytes,
        b"[{\"unique_id\":[0,1,2,3,4,5,6,7,8,9,10,11,12,13,14,15],\"points\":50}]".to_vec()
    );
}

#[test]
fn profiles_file_round_trip() {
    let list = vec![
        LudoGameProfileData::new(sample_uid(), 0),
        LudoGameProfileData::new((16u8..32u8).collect(), u128::MAX),
    ];
    let bytes = profiles_to_json(&list);
    let back = profiles_from_json(&bytes).unwrap();
    assert_eq!(back.len(), 2);
    assert_eq!(back[0].unique_id, list[0].unique_id);
    assert_eq!(back[0].points, 0);
    assert_eq!(back[1].unique_id, list[1].unique_id);
    assert_eq!(back[1].points, u128::MAX);
}

#[test]
fn profiles_file_round_trip_empty() {
    let bytes = profiles_to_json(&Vec::new());
    assert_eq!(bytes, b"[]".to_vec());
    let back = profiles_from_json(&bytes).unwrap();
    assert!(back.is_empty());
}

#[test]
fn profiles_file_rejects_trailing_garbage() {
    let mut bytes = profiles_to_json(&vec![LudoGameProfileData::new(sample_uid(), 1)]);
    bytes.push(b' ');
    assert!(profiles_from_json(&bytes).is_none());
}

#[test]
fn identity_file_round_trip() {
    let profile = sample_profile(b"carol", 41);
    let bytes = profile_to_json(&profile);
    let back = profile_from_json(&bytes).unwrap();
    assert_eq!(back.unique_id, profile.unique_id);
    assert_eq!(back.nickname, profile.nickname);
    assert_eq!(back.age, profile.age);
}

#[test]
fn identity_file_rejects_short_identity() {
    let bytes = b"{\"unique_id\":[1,2,3],\"nickname\":\"x\",\"age\":9}".to_vec();
    assert!(profile_from_json(&bytes).is_none());
}
