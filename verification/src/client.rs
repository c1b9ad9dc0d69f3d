//! The client side of the protocol: building the handshake request,
//! classifying what the server sent back, and the default identity a
//! fresh client starts with.
//!
//! The caller receives raw bytes from the transport and hands them to
//! `classify_outcome`; the packet kinds are probed in a fixed order and
//! a message matching none of them is reported as unknown, to be dropped.

use vstd::prelude::*;
use vstd::string::StrSliceExecFns;
use vstd::string::StringSliceAdditionalSpecFns;
use crate::game::LudoGameProfile;
use crate::game::LudoGameProfileView;
use crate::game::LudoGameProfileData;
use crate::game::spec_profiles_view;
use crate::packets::LudoGameOutcomeHandshakeCallbackPacket;
use crate::packets::LudoGameOutcomeProfilePacket;
use crate::packets::LudoGameOutcomeDisconnectPacket;
use crate::packets::LudoGameOutcomeGameStartPacket;
use crate::packets::LudoGameOutcomePlayerProfilesPacket;

verus! {

/// What a message from the server turned out to be.
#[derive(Debug)]
pub enum LudoServerOutcome {
    /// The handshake was accepted; the client should request its profile.
    HandshakeAck,
    /// The persistent record for the client's identity.
    Profile(LudoGameProfileData),
    /// The server is dropping this client, with a reason.
    Disconnected(Vec<u8>),
    /// The match has started.
    MatchStart,
    /// The current lobby roster.
    Roster(Vec<LudoGameProfile>),
    /// No known packet kind matched; the message is dropped.
    Unknown,
}

/// Classifies a server message by probing the outcome packet kinds in a
/// fixed order, stopping at the first kind that decodes.
pub fn classify_outcome(message: &Vec<u8>) -> (r: LudoServerOutcome)
    ensures
        ({
            let cb = LudoGameOutcomeHandshakeCallbackPacket::spec_make(message@);
            let pr = LudoGameOutcomeProfilePacket::spec_make(message@);
            let dc = LudoGameOutcomeDisconnectPacket::spec_make(message@);
            let st = LudoGameOutcomeGameStartPacket::spec_make(message@);
            let ro = LudoGameOutcomePlayerProfilesPacket::spec_make(message@);
            &&& (cb is Ok ==> r is HandshakeAck)
            &&& (cb is Err ==> (pr matches Ok(v) ==> r matches LudoServerOutcome::Profile(d)
                && d@ == v && d.wf()))
            &&& (cb is Err && pr is Err ==> (dc matches Ok(v) ==> r
                matches LudoServerOutcome::Disconnected(reason) && reason@ == v))
            &&& (cb is Err && pr is Err && dc is Err ==> (st is Ok ==> r is MatchStart))
            &&& (cb is Err && pr is Err && dc is Err && st is Err ==> (ro matches Ok(v) ==> r
                matches LudoServerOutcome::Roster(list) && spec_profiles_view(list@) == v))
            &&& (cb is Err && pr is Err && dc is Err && st is Err && ro is Err ==> r is Unknown)
        }),
{
    match LudoGameOutcomeHandshakeCallbackPacket::make_packet(message) {
        Ok(_) => {
            return LudoServerOutcome::HandshakeAck;
        },
        Err(_) => {},
    }
    match LudoGameOutcomeProfilePacket::make_packet(message) {
        Ok(p) => {
            return LudoServerOutcome::Profile(p.data);
        },
        Err(_) => {},
    }
    match LudoGameOutcomeDisconnectPacket::make_packet(message) {
        Ok(p) => {
            return LudoServerOutcome::Disconnected(p.reason);
        },
        Err(_) => {},
    }
    match LudoGameOutcomeGameStartPacket::make_packet(message) {
        Ok(_) => {
            return LudoServerOutcome::MatchStart;
        },
        Err(_) => {},
    }
    match LudoGameOutcomePlayerProfilesPacket::make_packet(message) {
        Ok(p) => {
            return LudoServerOutcome::Roster(p.list);
        },
        Err(_) => {},
    }
    LudoServerOutcome::Unknown
}

/// `default` — the nickname a fresh identity starts with.
pub open spec fn lit_default_nickname() -> Seq<u8> {
    "default".spec_bytes()
}

/// The profile a client starts with when no identity file exists yet:
/// the given fresh 16-byte identity, the default nickname, and the
/// default age.
pub fn default_profile(unique_id: Vec<u8>) -> (r: LudoGameProfile)
    requires
        unique_id@.len() == 16,
    ensures
        r@ == (LudoGameProfileView {
            unique_id: unique_id@,
            nickname: lit_default_nickname(),
            age: 17,
        }),
        r.wf(),
{
    LudoGameProfile { unique_id, nickname: "default".as_bytes_vec(), age: 17 }
}

} // verus!
