//! The game's packet kinds and their wire forms.
//!
//! Each packet has a kind name carried in the envelope's type tag and a
//! fixed-shape JSON payload. Decoding (`make_packet`) probes one expected
//! kind: it fails with a wrong-kind error when the buffer does not name
//! that kind, and with a malformed-payload error when the envelope or the
//! payload is broken. Round-trip lemmas prove that decoding an encoded
//! packet yields the packet back; only free text that itself holds the
//! envelope's closing delimiter `]#` can break the envelope, and the
//! lemmas state that exclusion exactly.

use vstd::prelude::*;
use vstd::string::StrSliceExecFns;
use vstd::string::StringSliceAdditionalSpecFns;
use crate::bytes::contains_sub;
use crate::codec::LudoPacketError;
use crate::codec::lit_data_close;
use crate::codec::spec_envelope;
use crate::codec::spec_decode_envelope;
use crate::codec::encode_envelope;
use crate::codec::decode_envelope;
use crate::codec::lemma_decode_envelope;
use crate::game::LudoGameProfile;
use crate::game::LudoGameProfileView;
use crate::game::LudoGameProfileData;
use crate::game::LudoGameProfileDataView;
use crate::game::lit_brace_close;
use crate::game::spec_emit_profile;
use crate::game::spec_parse_profile;
use crate::game::spec_emit_record;
use crate::game::spec_parse_record;
use crate::game::emit_profile;
use crate::game::emit_record;
use crate::game::parse_profile_at;
use crate::game::parse_record_at;
use crate::game::lemma_parse_emit_profile;
use crate::game::lemma_parse_emit_record;
use crate::game::spec_profiles_view;
use crate::game::spec_emit_profile_list;
use crate::game::spec_parse_profile_list;
use crate::game::emit_profile_list;
use crate::game::parse_profile_list_at;
use crate::game::lemma_parse_emit_profile_list;
use crate::json::spec_emit_u8_list;
use crate::json::spec_parse_u8_list;
use crate::json::spec_emit_string;
use crate::json::spec_parse_string;
use crate::json::spec_expect;
use crate::json::emit_u8_list;
use crate::json::emit_string;
use crate::json::parse_u8_list_at;
use crate::json::parse_string_at;
use crate::json::expect_at;
use crate::json::lemma_expect_emit;
use crate::json::lemma_parse_emit_u8_list;
use crate::json::lemma_parse_emit_string;
use crate::json::spec_escape;
use crate::json::spec_no_close_pair;
use crate::json::spec_no_hash;
use crate::json::lemma_escape_no_close;

verus! {

/// Direction of a packet: from the clients to the server, or back.
#[derive(Clone, Copy, PartialEq, Eq, Structural, Debug)]
pub enum LudoPacketType {
    /// Sent from one or more clients to the server.
    Income,
    /// Sent from the server to one or more clients.
    Outcome,
}

pub open spec fn lit_key_key() -> Seq<u8> {
    "{\"key\":".spec_bytes()
}

pub open spec fn lit_profile_key() -> Seq<u8> {
    "{\"profile\":".spec_bytes()
}

pub open spec fn lit_data_key() -> Seq<u8> {
    "{\"data\":".spec_bytes()
}

pub open spec fn lit_reason_key() -> Seq<u8> {
    "{\"reason\":".spec_bytes()
}

pub open spec fn lit_list_key() -> Seq<u8> {
    "{\"list\":".spec_bytes()
}

/// `{}` — the payload of the packets that carry no data.
pub open spec fn lit_empty_obj() -> Seq<u8> {
    seq![123u8, 125u8]
}

fn key_key_vec() -> (r: Vec<u8>)
    ensures
        r@ == lit_key_key(),
{
    "{\"key\":".as_bytes_vec()
}

fn profile_key_vec() -> (r: Vec<u8>)
    ensures
        r@ == lit_profile_key(),
{
    "{\"profile\":".as_bytes_vec()
}

fn data_key_vec() -> (r: Vec<u8>)
    ensures
        r@ == lit_data_key(),
{
    "{\"data\":".as_bytes_vec()
}

fn reason_key_vec() -> (r: Vec<u8>)
    ensures
        r@ == lit_reason_key(),
{
    "{\"reason\":".as_bytes_vec()
}

fn list_key_vec() -> (r: Vec<u8>)
    ensures
        r@ == lit_list_key(),
{
    "{\"list\":".as_bytes_vec()
}

fn empty_obj_vec() -> (r: Vec<u8>)
    ensures
        r@ == lit_empty_obj(),
{
    let mut v: Vec<u8> = Vec::new();
    v.push(123);
    v.push(125);
    proof {
        assert(v@ =~= lit_empty_obj());
    }
    v
}

fn brace_close_vec() -> (r: Vec<u8>)
    ensures
        r@ == lit_brace_close(),
{
    let mut v: Vec<u8> = Vec::new();
    v.push(125);
    proof {
        assert(v@ =~= lit_brace_close());
    }
    v
}

/// The handshake request a client sends first: the shared secret.
#[derive(Debug)]
pub struct LudoGameIncomeHandshakePacket {
    /// The declared 32-byte shared secret.
    pub key: Vec<u8>,
}

impl View for LudoGameIncomeHandshakePacket {
    type V = Seq<u8>;

    open spec fn view(&self) -> Seq<u8> {
        self.key@
    }
}

impl LudoGameIncomeHandshakePacket {
    pub open spec fn wf(&self) -> bool {
        self.key@.len() == 32
    }

    pub fn new(key: Vec<u8>) -> (r: Self)
        ensures
            r@ == key@,
    {
        LudoGameIncomeHandshakePacket { key }
    }

    pub fn packet_type(&self) -> (r: LudoPacketType)
        ensures
            r == LudoPacketType::Income,
    {
        LudoPacketType::Income
    }

    pub open spec fn spec_kind() -> Seq<u8> {
        "LudoGameIncomeHandshakePacket".spec_bytes()
    }

    proof fn lemma_kind_hash_free()
        ensures
            forall|k: int| 0 <= k < Self::spec_kind().len() ==> Self::spec_kind()[k] != 35,
    {
        reveal_strlit("LudoGameIncomeHandshakePacket");
        assert(vstd::string::is_ascii("LudoGameIncomeHandshakePacket"));
        vstd::string::is_ascii_spec_bytes("LudoGameIncomeHandshakePacket");
        assert(Self::spec_kind() =~= Seq::new(
            "LudoGameIncomeHandshakePacket"@.len(),
            |i: int| "LudoGameIncomeHandshakePacket"@.index(i) as u8,
        ));
    }

    fn kind_vec() -> (r: Vec<u8>)
        ensures
            r@ == Self::spec_kind(),
    {
        "LudoGameIncomeHandshakePacket".as_bytes_vec()
    }

    /// `{"key":[...32 bytes...]}`.
    pub open spec fn spec_payload(v: Seq<u8>) -> Seq<u8> {
        lit_key_key() + spec_emit_u8_list(v) + lit_brace_close()
    }

    /// The whole payload must be consumed and the key must be 32 bytes.
    pub open spec fn spec_parse_payload(s: Seq<u8>) -> Option<Seq<u8>> {
        match spec_expect(s, lit_key_key()) {
            None => None,
            Some(s1) => match spec_parse_u8_list(s1) {
                None => None,
                Some((key, s2)) => if key.len() != 32 {
                    None
                } else {
                    match spec_expect(s2, lit_brace_close()) {
                        None => None,
                        Some(s3) => if s3.len() == 0 {
                            Some(key)
                        } else {
                            None
                        },
                    }
                },
            },
        }
    }

    pub open spec fn spec_encode(v: Seq<u8>) -> Seq<u8> {
        spec_envelope(Self::spec_kind(), Self::spec_payload(v))
    }

    pub open spec fn spec_make(s: Seq<u8>) -> Result<Seq<u8>, LudoPacketError> {
        match spec_decode_envelope(s, Self::spec_kind()) {
            Err(e) => Err(e),
            Ok(json) => match Self::spec_parse_payload(json) {
                None => Err(LudoPacketError::MalformedPayload),
                Some(v) => Ok(v),
            },
        }
    }

    /// Serializes the packet into its wire envelope.
    pub fn encode(&self) -> (r: Vec<u8>)
        requires
            self.wf(),
        ensures
            r@ == Self::spec_encode(self@),
    {
        let mut payload = key_key_vec();
        emit_u8_list(&mut payload, &self.key);
        payload.push(125);
        proof {
            assert(payload@ =~= Self::spec_payload(self@));
        }
        let kind = Self::kind_vec();
        encode_envelope(&kind, &payload)
    }

    /// Decodes a buffer as this packet kind.
    pub fn make_packet(buf: &Vec<u8>) -> (r: Result<Self, LudoPacketError>)
        ensures
            match Self::spec_make(buf@) {
                Ok(v) => r matches Ok(p) && p@ == v && p.wf(),
                Err(e) => r matches Err(e2) && e2 == e,
            },
    {
        let kind = Self::kind_vec();
        let json = match decode_envelope(buf, &kind) {
            Err(e) => {
                return Err(e);
            },
            Ok(json) => json,
        };
        proof {
            assert(json@.skip(0) =~= json@);
        }
        let l1 = key_key_vec();
        let j1 = match expect_at(&json, 0, &l1) {
            None => {
                return Err(LudoPacketError::MalformedPayload);
            },
            Some(j) => j,
        };
        let (key, j2) = match parse_u8_list_at(&json, j1) {
            None => {
                return Err(LudoPacketError::MalformedPayload);
            },
            Some(p) => p,
        };
        if key.len() != 32 {
            return Err(LudoPacketError::MalformedPayload);
        }
        let l2 = brace_close_vec();
        let j3 = match expect_at(&json, j2, &l2) {
            None => {
                return Err(LudoPacketError::MalformedPayload);
            },
            Some(j) => j,
        };
        if j3 != json.len() {
            proof {
                assert(json@.skip(j3 as int).len() > 0);
            }
            return Err(LudoPacketError::MalformedPayload);
        }
        proof {
            assert(json@.skip(j3 as int).len() == 0);
        }
        Ok(LudoGameIncomeHandshakePacket { key })
    }

    /// Decoding an encoded handshake request yields the same key, for
    /// any 32-byte key: this payload can never hold the delimiter.
    pub proof fn lemma_round_trip(v: Seq<u8>)
        requires
            v.len() == 32,
        ensures
            Self::spec_make(Self::spec_encode(v)) == Ok::<_, LudoPacketError>(v),
    {
        lemma_handshake_payload_no_close(v);
        Self::lemma_kind_hash_free();
        lemma_decode_envelope(Self::spec_kind(), Self::spec_payload(v));
        let r1 = spec_emit_u8_list(v) + lit_brace_close();
        assert(Self::spec_payload(v) =~= lit_key_key() + r1);
        lemma_expect_emit(lit_key_key(), r1);
        lemma_parse_emit_u8_list(v, lit_brace_close());
        lemma_expect_emit(lit_brace_close(), Seq::empty());
        assert(lit_brace_close() + Seq::<u8>::empty() =~= lit_brace_close());
    }
}

/// The server's acknowledgement that the handshake was accepted.
#[derive(Debug)]
pub struct LudoGameOutcomeHandshakeCallbackPacket {}

impl View for LudoGameOutcomeHandshakeCallbackPacket {
    type V = ();

    open spec fn view(&self) -> () {
        ()
    }
}

impl LudoGameOutcomeHandshakeCallbackPacket {
    pub fn new() -> (r: Self) {
        LudoGameOutcomeHandshakeCallbackPacket {  }
    }

    pub fn packet_type(&self) -> (r: LudoPacketType)
        ensures
            r == LudoPacketType::Outcome,
    {
        LudoPacketType::Outcome
    }

    pub open spec fn spec_kind() -> Seq<u8> {
        "LudoGameOutcomeHandshakeCallbackPacket".spec_bytes()
    }

    proof fn lemma_kind_hash_free()
        ensures
            forall|k: int| 0 <= k < Self::spec_kind().len() ==> Self::spec_kind()[k] != 35,
    {
        reveal_strlit("LudoGameOutcomeHandshakeCallbackPacket");
        assert(vstd::string::is_ascii("LudoGameOutcomeHandshakeCallbackPacket"));
        vstd::string::is_ascii_spec_bytes("LudoGameOutcomeHandshakeCallbackPacket");
        assert(Self::spec_kind() =~= Seq::new(
            "LudoGameOutcomeHandshakeCallbackPacket"@.len(),
            |i: int| "LudoGameOutcomeHandshakeCallbackPacket"@.index(i) as u8,
        ));
    }

    fn kind_vec() -> (r: Vec<u8>)
        ensures
            r@ == Self::spec_kind(),
    {
        "LudoGameOutcomeHandshakeCallbackPacket".as_bytes_vec()
    }

    pub open spec fn spec_payload() -> Seq<u8> {
        lit_empty_obj()
    }

    pub open spec fn spec_parse_payload(s: Seq<u8>) -> Option<()> {
        if s == lit_empty_obj() {
            Some(())
        } else {
            None
        }
    }

    pub open spec fn spec_encode() -> Seq<u8> {
        spec_envelope(Self::spec_kind(), Self::spec_payload())
    }

    pub open spec fn spec_make(s: Seq<u8>) -> Result<(), LudoPacketError> {
        match spec_decode_envelope(s, Self::spec_kind()) {
            Err(e) => Err(e),
            Ok(json) => match Self::spec_parse_payload(json) {
                None => Err(LudoPacketError::MalformedPayload),
                Some(v) => Ok(v),
            },
        }
    }

    /// Serializes the packet into its wire envelope.
    pub fn encode(&self) -> (r: Vec<u8>)
        ensures
            r@ == Self::spec_encode(),
    {
        let payload = empty_obj_vec();
        let kind = Self::kind_vec();
        encode_envelope(&kind, &payload)
    }

    /// Decodes a buffer as this packet kind.
    pub fn make_packet(buf: &Vec<u8>) -> (r: Result<Self, LudoPacketError>)
        ensures
            match Self::spec_make(buf@) {
                Ok(v) => r is Ok,
                Err(e) => r matches Err(e2) && e2 == e,
            },
    {
        let kind = Self::kind_vec();
        let json = match decode_envelope(buf, &kind) {
            Err(e) => {
                return Err(e);
            },
            Ok(json) => json,
        };
        let l1 = empty_obj_vec();
        if json.len() != 2 {
            proof {
                assert(json@ != lit_empty_obj());
            }
            return Err(LudoPacketError::MalformedPayload);
        }
        match expect_at(&json, 0, &l1) {
            None => {
                proof {
                    if json@ == lit_empty_obj() {
                        assert(json@.skip(0).take(2) =~= json@);
                    }
                }
                Err(LudoPacketError::MalformedPayload)
            },
            Some(_) => {
                proof {
                    assert(json@.skip(0).take(2) =~= json@);
                }
                Ok(LudoGameOutcomeHandshakeCallbackPacket {  })
            },
        }
    }

    /// Decoding an encoded acknowledgement succeeds.
    pub proof fn lemma_round_trip()
        ensures
            Self::spec_make(Self::spec_encode()) == Ok::<(), LudoPacketError>(()),
    {
        Self::lemma_kind_hash_free();
        assert(!contains_sub(Self::spec_payload(), lit_data_close())) by {
            lemma_empty_obj_no_close();
        }
        lemma_decode_envelope(Self::spec_kind(), Self::spec_payload());
    }
}

/// The server's signal that the match starts now.
#[derive(Debug)]
pub struct LudoGameOutcomeGameStartPacket {}

impl View for LudoGameOutcomeGameStartPacket {
    type V = ();

    open spec fn view(&self) -> () {
        ()
    }
}

impl LudoGameOutcomeGameStartPacket {
    pub fn new() -> (r: Self) {
        LudoGameOutcomeGameStartPacket {  }
    }

    pub fn packet_type(&self) -> (r: LudoPacketType)
        ensures
            r == LudoPacketType::Outcome,
    {
        LudoPacketType::Outcome
    }

    pub open spec fn spec_kind() -> Seq<u8> {
        "LudoGameOutcomeGameStartPacket".spec_bytes()
    }

    proof fn lemma_kind_hash_free()
        ensures
            forall|k: int| 0 <= k < Self::spec_kind().len() ==> Self::spec_kind()[k] != 35,
    {
        reveal_strlit("LudoGameOutcomeGameStartPacket");
        assert(vstd::string::is_ascii("LudoGameOutcomeGameStartPacket"));
        vstd::string::is_ascii_spec_bytes("LudoGameOutcomeGameStartPacket");
        assert(Self::spec_kind() =~= Seq::new(
            "LudoGameOutcomeGameStartPacket"@.len(),
            |i: int| "LudoGameOutcomeGameStartPacket"@.index(i) as u8,
        ));
    }

    fn kind_vec() -> (r: Vec<u8>)
        ensures
            r@ == Self::spec_kind(),
    {
        "LudoGameOutcomeGameStartPacket".as_bytes_vec()
    }

    pub open spec fn spec_payload() -> Seq<u8> {
        lit_empty_obj()
    }

    pub open spec fn spec_parse_payload(s: Seq<u8>) -> Option<()> {
        if s == lit_empty_obj() {
            Some(())
        } else {
            None
        }
    }

    pub open spec fn spec_encode() -> Seq<u8> {
        spec_envelope(Self::spec_kind(), Self::spec_payload())
    }

    pub open spec fn spec_make(s: Seq<u8>) -> Result<(), LudoPacketError> {
        match spec_decode_envelope(s, Self::spec_kind()) {
            Err(e) => Err(e),
            Ok(json) => match Self::spec_parse_payload(json) {
                None => Err(LudoPacketError::MalformedPayload),
                Some(v) => Ok(v),
            },
        }
    }

    /// Serializes the packet into its wire envelope.
    pub fn encode(&self) -> (r: Vec<u8>)
        ensures
            r@ == Self::spec_encode(),
    {
        let payload = empty_obj_vec();
        let kind = Self::kind_vec();
        encode_envelope(&kind, &payload)
    }

    /// Decodes a buffer as this packet kind.
    pub fn make_packet(buf: &Vec<u8>) -> (r: Result<Self, LudoPacketError>)
        ensures
            match Self::spec_make(buf@) {
                Ok(v) => r is Ok,
                Err(e) => r matches Err(e2) && e2 == e,
            },
    {
        let kind = Self::kind_vec();
        let json = match decode_envelope(buf, &kind) {
            Err(e) => {
                return Err(e);
            },
            Ok(json) => json,
        };
        let l1 = empty_obj_vec();
        if json.len() != 2 {
            proof {
                assert(json@ != lit_empty_obj());
            }
            return Err(LudoPacketError::MalformedPayload);
        }
        match expect_at(&json, 0, &l1) {
            None => {
                proof {
                    if json@ == lit_empty_obj() {
                        assert(json@.skip(0).take(2) =~= json@);
                    }
                }
                Err(LudoPacketError::MalformedPayload)
            },
            Some(_) => {
                proof {
                    assert(json@.skip(0).take(2) =~= json@);
                }
                Ok(LudoGameOutcomeGameStartPacket {  })
            },
        }
    }

    /// Decoding an encoded match-start signal succeeds.
    pub proof fn lemma_round_trip()
        ensures
            Self::spec_make(Self::spec_encode()) == Ok::<(), LudoPacketError>(()),
    {
        Self::lemma_kind_hash_free();
        assert(!contains_sub(Self::spec_payload(), lit_data_close())) by {
            lemma_empty_obj_no_close();
        }
        lemma_decode_envelope(Self::spec_kind(), Self::spec_payload());
    }
}

/// The server's goodbye: a human-readable reason, sent before the
/// transport-level disconnect.
#[derive(Debug)]
pub struct LudoGameOutcomeDisconnectPacket {
    /// Reason text (UTF-8 bytes).
    pub reason: Vec<u8>,
}

impl View for LudoGameOutcomeDisconnectPacket {
    type V = Seq<u8>;

    open spec fn view(&self) -> Seq<u8> {
        self.reason@
    }
}

impl LudoGameOutcomeDisconnectPacket {
    pub fn new(reason: Vec<u8>) -> (r: Self)
        ensures
            r@ == reason@,
    {
        LudoGameOutcomeDisconnectPacket { reason }
    }

    pub fn packet_type(&self) -> (r: LudoPacketType)
        ensures
            r == LudoPacketType::Outcome,
    {
        LudoPacketType::Outcome
    }

    pub open spec fn spec_kind() -> Seq<u8> {
        "LudoGameOutcomeDisconnectPacket".spec_bytes()
    }

    proof fn lemma_kind_hash_free()
        ensures
            forall|k: int| 0 <= k < Self::spec_kind().len() ==> Self::spec_kind()[k] != 35,
    {
        reveal_strlit("LudoGameOutcomeDisconnectPacket");
        assert(vstd::string::is_ascii("LudoGameOutcomeDisconnectPacket"));
        vstd::string::is_ascii_spec_bytes("LudoGameOutcomeDisconnectPacket");
        assert(Self::spec_kind() =~= Seq::new(
            "LudoGameOutcomeDisconnectPacket"@.len(),
            |i: int| "LudoGameOutcomeDisconnectPacket"@.index(i) as u8,
        ));
    }

    fn kind_vec() -> (r: Vec<u8>)
        ensures
            r@ == Self::spec_kind(),
    {
        "LudoGameOutcomeDisconnectPacket".as_bytes_vec()
    }

    /// `{"reason":"..."}`.
    pub open spec fn spec_payload(v: Seq<u8>) -> Seq<u8> {
        lit_reason_key() + spec_emit_string(v) + lit_brace_close()
    }

    pub open spec fn spec_parse_payload(s: Seq<u8>) -> Option<Seq<u8>> {
        match spec_expect(s, lit_reason_key()) {
            None => None,
            Some(s1) => match spec_parse_string(s1) {
                None => None,
                Some((reason, s2)) => match spec_expect(s2, lit_brace_close()) {
                    None => None,
                    Some(s3) => if s3.len() == 0 {
                        Some(reason)
                    } else {
                        None
                    },
                },
            },
        }
    }

    pub open spec fn spec_encode(v: Seq<u8>) -> Seq<u8> {
        spec_envelope(Self::spec_kind(), Self::spec_payload(v))
    }

    pub open spec fn spec_make(s: Seq<u8>) -> Result<Seq<u8>, LudoPacketError> {
        match spec_decode_envelope(s, Self::spec_kind()) {
            Err(e) => Err(e),
            Ok(json) => match Self::spec_parse_payload(json) {
                None => Err(LudoPacketError::MalformedPayload),
                Some(v) => Ok(v),
            },
        }
    }

    /// Serializes the packet into its wire envelope.
    pub fn encode(&self) -> (r: Vec<u8>)
        ensures
            r@ == Self::spec_encode(self@),
    {
        let mut payload = reason_key_vec();
        emit_string(&mut payload, &self.reason);
        payload.push(125);
        proof {
            assert(payload@ =~= Self::spec_payload(self@));
        }
        let kind = Self::kind_vec();
        encode_envelope(&kind, &payload)
    }

    /// Decodes a buffer as this packet kind.
    pub fn make_packet(buf: &Vec<u8>) -> (r: Result<Self, LudoPacketError>)
        ensures
            match Self::spec_make(buf@) {
                Ok(v) => r matches Ok(p) && p@ == v,
                Err(e) => r matches Err(e2) && e2 == e,
            },
    {
        let kind = Self::kind_vec();
        let json = match decode_envelope(buf, &kind) {
            Err(e) => {
                return Err(e);
            },
            Ok(json) => json,
        };
        proof {
            assert(json@.skip(0) =~= json@);
        }
        let l1 = reason_key_vec();
        let j1 = match expect_at(&json, 0, &l1) {
            None => {
                return Err(LudoPacketError::MalformedPayload);
            },
            Some(j) => j,
        };
        let (reason, j2) = match parse_string_at(&json, j1) {
            None => {
                return Err(LudoPacketError::MalformedPayload);
            },
            Some(p) => p,
        };
        let l2 = brace_close_vec();
        let j3 = match expect_at(&json, j2, &l2) {
            None => {
                return Err(LudoPacketError::MalformedPayload);
            },
            Some(j) => j,
        };
        if j3 != json.len() {
            proof {
                assert(json@.skip(j3 as int).len() > 0);
            }
            return Err(LudoPacketError::MalformedPayload);
        }
        proof {
            assert(json@.skip(j3 as int).len() == 0);
        }
        Ok(LudoGameOutcomeDisconnectPacket { reason })
    }

    /// Decoding an encoded disconnect yields the same reason, for any
    /// reason that itself stays clear of the closing delimiter — the
    /// exclusion the wire format demands of reason text.
    pub proof fn lemma_round_trip_clean_reason(v: Seq<u8>)
        requires
            !contains_sub(v, lit_data_close()),
        ensures
            Self::spec_make(Self::spec_encode(v)) == Ok::<_, LudoPacketError>(v),
    {
        lemma_reason_payload_no_close(v);
        Self::lemma_round_trip(v);
    }

    /// Decoding an encoded disconnect yields the same reason, for any
    /// reason whose payload avoids the closing delimiter.
    pub proof fn lemma_round_trip(v: Seq<u8>)
        requires
            !contains_sub(Self::spec_payload(v), lit_data_close()),
        ensures
            Self::spec_make(Self::spec_encode(v)) == Ok::<_, LudoPacketError>(v),
    {
        Self::lemma_kind_hash_free();
        lemma_decode_envelope(Self::spec_kind(), Self::spec_payload(v));
        let r1 = spec_emit_string(v) + lit_brace_close();
        assert(Self::spec_payload(v) =~= lit_reason_key() + r1);
        lemma_expect_emit(lit_reason_key(), r1);
        lemma_parse_emit_string(v, lit_brace_close());
        lemma_expect_emit(lit_brace_close(), Seq::empty());
        assert(lit_brace_close() + Seq::<u8>::empty() =~= lit_brace_close());
    }
}

/// A client's profile-sync request, carrying its declared identity.
#[derive(Debug)]
pub struct LudoGameIncomeProfilePacket {
    pub profile: LudoGameProfile,
}

impl View for LudoGameIncomeProfilePacket {
    type V = LudoGameProfileView;

    open spec fn view(&self) -> LudoGameProfileView {
        self.profile@
    }
}

impl LudoGameIncomeProfilePacket {
    pub open spec fn wf(&self) -> bool {
        self.profile.wf()
    }

    pub fn new(profile: LudoGameProfile) -> (r: Self)
        ensures
            r@ == profile@,
    {
        LudoGameIncomeProfilePacket { profile }
    }

    pub fn packet_type(&self) -> (r: LudoPacketType)
        ensures
            r == LudoPacketType::Income,
    {
        LudoPacketType::Income
    }

    pub open spec fn spec_kind() -> Seq<u8> {
        "LudoGameIncomeProfilePacket".spec_bytes()
    }

    proof fn lemma_kind_hash_free()
        ensures
            forall|k: int| 0 <= k < Self::spec_kind().len() ==> Self::spec_kind()[k] != 35,
    {
        reveal_strlit("LudoGameIncomeProfilePacket");
        assert(vstd::string::is_ascii("LudoGameIncomeProfilePacket"));
        vstd::string::is_ascii_spec_bytes("LudoGameIncomeProfilePacket");
        assert(Self::spec_kind() =~= Seq::new(
            "LudoGameIncomeProfilePacket"@.len(),
            |i: int| "LudoGameIncomeProfilePacket"@.index(i) as u8,
        ));
    }

    fn kind_vec() -> (r: Vec<u8>)
        ensures
            r@ == Self::spec_kind(),
    {
        "LudoGameIncomeProfilePacket".as_bytes_vec()
    }

    /// `{"profile":{...}}`.
    pub open spec fn spec_payload(v: LudoGameProfileView) -> Seq<u8> {
        lit_profile_key() + spec_emit_profile(v) + lit_brace_close()
    }

    pub open spec fn spec_parse_payload(s: Seq<u8>) -> Option<LudoGameProfileView> {
        match spec_expect(s, lit_profile_key()) {
            None => None,
            Some(s1) => match spec_parse_profile(s1) {
                None => None,
                Some((profile, s2)) => match spec_expect(s2, lit_brace_close()) {
                    None => None,
                    Some(s3) => if s3.len() == 0 {
                        Some(profile)
                    } else {
                        None
                    },
                },
            },
        }
    }

    pub open spec fn spec_encode(v: LudoGameProfileView) -> Seq<u8> {
        spec_envelope(Self::spec_kind(), Self::spec_payload(v))
    }

    pub open spec fn spec_make(s: Seq<u8>) -> Result<LudoGameProfileView, LudoPacketError> {
        match spec_decode_envelope(s, Self::spec_kind()) {
            Err(e) => Err(e),
            Ok(json) => match Self::spec_parse_payload(json) {
                None => Err(LudoPacketError::MalformedPayload),
                Some(v) => Ok(v),
            },
        }
    }

    /// Serializes the packet into its wire envelope.
    pub fn encode(&self) -> (r: Vec<u8>)
        ensures
            r@ == Self::spec_encode(self@),
    {
        let mut payload = profile_key_vec();
        emit_profile(&mut payload, &self.profile);
        payload.push(125);
        proof {
            assert(payload@ =~= Self::spec_payload(self@));
        }
        let kind = Self::kind_vec();
        encode_envelope(&kind, &payload)
    }

    /// Decodes a buffer as this packet kind.
    pub fn make_packet(buf: &Vec<u8>) -> (r: Result<Self, LudoPacketError>)
        ensures
            match Self::spec_make(buf@) {
                Ok(v) => r matches Ok(p) && p@ == v && p.wf(),
                Err(e) => r matches Err(e2) && e2 == e,
            },
    {
        let kind = Self::kind_vec();
        let json = match decode_envelope(buf, &kind) {
            Err(e) => {
                return Err(e);
            },
            Ok(json) => json,
        };
        proof {
            assert(json@.skip(0) =~= json@);
        }
        let l1 = profile_key_vec();
        let j1 = match expect_at(&json, 0, &l1) {
            None => {
                return Err(LudoPacketError::MalformedPayload);
            },
            Some(j) => j,
        };
        let (profile, j2) = match parse_profile_at(&json, j1) {
            None => {
                return Err(LudoPacketError::MalformedPayload);
            },
            Some(p) => p,
        };
        let l2 = brace_close_vec();
        let j3 = match expect_at(&json, j2, &l2) {
            None => {
                return Err(LudoPacketError::MalformedPayload);
            },
            Some(j) => j,
        };
        if j3 != json.len() {
            proof {
                assert(json@.skip(j3 as int).len() > 0);
            }
            return Err(LudoPacketError::MalformedPayload);
        }
        proof {
            assert(json@.skip(j3 as int).len() == 0);
        }
        Ok(LudoGameIncomeProfilePacket { profile })
    }

    /// Decoding an encoded profile request yields the same profile, for
    /// any well-formed profile whose nickname stays clear of the closing
    /// delimiter — the exclusion the wire format demands of free text.
    pub proof fn lemma_round_trip_clean_nickname(v: LudoGameProfileView)
        requires
            v.wf(),
            !contains_sub(v.nickname, lit_data_close()),
        ensures
            Self::spec_make(Self::spec_encode(v)) == Ok::<_, LudoPacketError>(v),
    {
        assert(lit_data_close() =~= seq![93u8, 35u8]);
        lemma_payload_keys_no_hash();
        crate::game::lemma_emit_profile_no_close(v);
        crate::json::lemma_no_hash_no_close(lit_profile_key());
        crate::json::lemma_no_close_concat(lit_profile_key(), spec_emit_profile(v));
        assert(crate::json::spec_no_close_pair(lit_brace_close()));
        crate::json::lemma_no_close_concat(
            lit_profile_key() + spec_emit_profile(v),
            lit_brace_close(),
        );
        crate::bytes::lemma_contains_pair(Self::spec_payload(v), 93, 35);
        Self::lemma_round_trip(v);
    }

    /// Decoding an encoded profile request yields the same profile, for
    /// any well-formed profile whose payload avoids the closing delimiter.
    pub proof fn lemma_round_trip(v: LudoGameProfileView)
        requires
            v.wf(),
            !contains_sub(Self::spec_payload(v), lit_data_close()),
        ensures
            Self::spec_make(Self::spec_encode(v)) == Ok::<_, LudoPacketError>(v),
    {
        Self::lemma_kind_hash_free();
        lemma_decode_envelope(Self::spec_kind(), Self::spec_payload(v));
        let r1 = spec_emit_profile(v) + lit_brace_close();
        assert(Self::spec_payload(v) =~= lit_profile_key() + r1);
        lemma_expect_emit(lit_profile_key(), r1);
        lemma_parse_emit_profile(v, lit_brace_close());
        lemma_expect_emit(lit_brace_close(), Seq::empty());
        assert(lit_brace_close() + Seq::<u8>::empty() =~= lit_brace_close());
    }
}

/// The server's profile-sync reply, carrying the persistent record.
#[derive(Debug)]
pub struct LudoGameOutcomeProfilePacket {
    pub data: LudoGameProfileData,
}

impl View for LudoGameOutcomeProfilePacket {
    type V = LudoGameProfileDataView;

    open spec fn view(&self) -> LudoGameProfileDataView {
        self.data@
    }
}

impl LudoGameOutcomeProfilePacket {
    pub open spec fn wf(&self) -> bool {
        self.data.wf()
    }

    pub fn new(data: LudoGameProfileData) -> (r: Self)
        ensures
            r@ == data@,
    {
        LudoGameOutcomeProfilePacket { data }
    }

    pub fn packet_type(&self) -> (r: LudoPacketType)
        ensures
            r == LudoPacketType::Outcome,
    {
        LudoPacketType::Outcome
    }

    pub open spec fn spec_kind() -> Seq<u8> {
        "LudoGameOutcomeProfilePacket".spec_bytes()
    }

    proof fn lemma_kind_hash_free()
        ensures
            forall|k: int| 0 <= k < Self::spec_kind().len() ==> Self::spec_kind()[k] != 35,
    {
        reveal_strlit("LudoGameOutcomeProfilePacket");
        assert(vstd::string::is_ascii("LudoGameOutcomeProfilePacket"));
        vstd::string::is_ascii_spec_bytes("LudoGameOutcomeProfilePacket");
        assert(Self::spec_kind() =~= Seq::new(
            "LudoGameOutcomeProfilePacket"@.len(),
            |i: int| "LudoGameOutcomeProfilePacket"@.index(i) as u8,
        ));
    }

    fn kind_vec() -> (r: Vec<u8>)
        ensures
            r@ == Self::spec_kind(),
    {
        "LudoGameOutcomeProfilePacket".as_bytes_vec()
    }

    /// `{"data":{...}}`.
    pub open spec fn spec_payload(v: LudoGameProfileDataView) -> Seq<u8> {
        lit_data_key() + spec_emit_record(v) + lit_brace_close()
    }

    pub open spec fn spec_parse_payload(s: Seq<u8>) -> Option<LudoGameProfileDataView> {
        match spec_expect(s, lit_data_key()) {
            None => None,
            Some(s1) => match spec_parse_record(s1) {
                None => None,
                Some((data, s2)) => match spec_expect(s2, lit_brace_close()) {
                    None => None,
                    Some(s3) => if s3.len() == 0 {
                        Some(data)
                    } else {
                        None
                    },
                },
            },
        }
    }

    pub open spec fn spec_encode(v: LudoGameProfileDataView) -> Seq<u8> {
        spec_envelope(Self::spec_kind(), Self::spec_payload(v))
    }

    pub open spec fn spec_make(s: Seq<u8>) -> Result<LudoGameProfileDataView, LudoPacketError> {
        match spec_decode_envelope(s, Self::spec_kind()) {
            Err(e) => Err(e),
            Ok(json) => match Self::spec_parse_payload(json) {
                None => Err(LudoPacketError::MalformedPayload),
                Some(v) => Ok(v),
            },
        }
    }

    /// Serializes the packet into its wire envelope.
    pub fn encode(&self) -> (r: Vec<u8>)
        ensures
            r@ == Self::spec_encode(self@),
    {
        let mut payload = data_key_vec();
        emit_record(&mut payload, &self.data);
        payload.push(125);
        proof {
            assert(payload@ =~= Self::spec_payload(self@));
        }
        let kind = Self::kind_vec();
        encode_envelope(&kind, &payload)
    }

    /// Decodes a buffer as this packet kind.
    pub fn make_packet(buf: &Vec<u8>) -> (r: Result<Self, LudoPacketError>)
        ensures
            match Self::spec_make(buf@) {
                Ok(v) => r matches Ok(p) && p@ == v && p.wf(),
                Err(e) => r matches Err(e2) && e2 == e,
            },
    {
        let kind = Self::kind_vec();
        let json = match decode_envelope(buf, &kind) {
            Err(e) => {
                return Err(e);
            },
            Ok(json) => json,
        };
        proof {
            assert(json@.skip(0) =~= json@);
        }
        let l1 = data_key_vec();
        let j1 = match expect_at(&json, 0, &l1) {
            None => {
                return Err(LudoPacketError::MalformedPayload);
            },
            Some(j) => j,
        };
        let (data, j2) = match parse_record_at(&json, j1) {
            None => {
                return Err(LudoPacketError::MalformedPayload);
            },
            Some(p) => p,
        };
        let l2 = brace_close_vec();
        let j3 = match expect_at(&json, j2, &l2) {
            None => {
                return Err(LudoPacketError::MalformedPayload);
            },
            Some(j) => j,
        };
        if j3 != json.len() {
            proof {
                assert(json@.skip(j3 as int).len() > 0);
            }
            return Err(LudoPacketError::MalformedPayload);
        }
        proof {
            assert(json@.skip(j3 as int).len() == 0);
        }
        Ok(LudoGameOutcomeProfilePacket { data })
    }

    /// Decoding an encoded profile reply yields the same record, for any
    /// well-formed record: this payload can never hold the delimiter.
    pub proof fn lemma_round_trip(v: LudoGameProfileDataView)
        requires
            v.wf(),
        ensures
            Self::spec_make(Self::spec_encode(v)) == Ok::<_, LudoPacketError>(v),
    {
        lemma_record_payload_no_close(v);
        Self::lemma_kind_hash_free();
        lemma_decode_envelope(Self::spec_kind(), Self::spec_payload(v));
        let r1 = spec_emit_record(v) + lit_brace_close();
        assert(Self::spec_payload(v) =~= lit_data_key() + r1);
        lemma_expect_emit(lit_data_key(), r1);
        lemma_parse_emit_record(v, lit_brace_close());
        lemma_expect_emit(lit_brace_close(), Seq::empty());
        assert(lit_brace_close() + Seq::<u8>::empty() =~= lit_brace_close());
    }
}

/// The server's periodic roster broadcast: the profiles of all admitted
/// players, for waiting-room interfaces to render.
#[derive(Debug)]
pub struct LudoGameOutcomePlayerProfilesPacket {
    pub list: Vec<LudoGameProfile>,
}

impl View for LudoGameOutcomePlayerProfilesPacket {
    type V = Seq<LudoGameProfileView>;

    open spec fn view(&self) -> Seq<LudoGameProfileView> {
        spec_profiles_view(self.list@)
    }
}

impl LudoGameOutcomePlayerProfilesPacket {
    pub open spec fn wf(&self) -> bool {
        forall|i: int| 0 <= i < self@.len() ==> self@[i].wf()
    }

    pub fn new(list: Vec<LudoGameProfile>) -> (r: Self)
        ensures
            r@ == spec_profiles_view(list@),
    {
        LudoGameOutcomePlayerProfilesPacket { list }
    }

    pub fn packet_type(&self) -> (r: LudoPacketType)
        ensures
            r == LudoPacketType::Outcome,
    {
        LudoPacketType::Outcome
    }

    pub open spec fn spec_kind() -> Seq<u8> {
        "LudoGameOutcomePlayerProfilesPacket".spec_bytes()
    }

    proof fn lemma_kind_hash_free()
        ensures
            forall|k: int| 0 <= k < Self::spec_kind().len() ==> Self::spec_kind()[k] != 35,
    {
        reveal_strlit("LudoGameOutcomePlayerProfilesPacket");
        assert(vstd::string::is_ascii("LudoGameOutcomePlayerProfilesPacket"));
        vstd::string::is_ascii_spec_bytes("LudoGameOutcomePlayerProfilesPacket");
        assert(Self::spec_kind() =~= Seq::new(
            "LudoGameOutcomePlayerProfilesPacket"@.len(),
            |i: int| "LudoGameOutcomePlayerProfilesPacket"@.index(i) as u8,
        ));
    }

    fn kind_vec() -> (r: Vec<u8>)
        ensures
            r@ == Self::spec_kind(),
    {
        "LudoGameOutcomePlayerProfilesPacket".as_bytes_vec()
    }

    /// `{"list":[{...},...]}`.
    pub open spec fn spec_payload(v: Seq<LudoGameProfileView>) -> Seq<u8> {
        lit_list_key() + spec_emit_profile_list(v) + lit_brace_close()
    }

    pub open spec fn spec_parse_payload(s: Seq<u8>) -> Option<Seq<LudoGameProfileView>> {
        match spec_expect(s, lit_list_key()) {
            None => None,
            Some(s1) => match spec_parse_profile_list(s1) {
                None => None,
                Some((list, s2)) => match spec_expect(s2, lit_brace_close()) {
                    None => None,
                    Some(s3) => if s3.len() == 0 {
                        Some(list)
                    } else {
                        None
                    },
                },
            },
        }
    }

    pub open spec fn spec_encode(v: Seq<LudoGameProfileView>) -> Seq<u8> {
        spec_envelope(Self::spec_kind(), Self::spec_payload(v))
    }

    pub open spec fn spec_make(s: Seq<u8>) -> Result<Seq<LudoGameProfileView>, LudoPacketError> {
        match spec_decode_envelope(s, Self::spec_kind()) {
            Err(e) => Err(e),
            Ok(json) => match Self::spec_parse_payload(json) {
                None => Err(LudoPacketError::MalformedPayload),
                Some(v) => Ok(v),
            },
        }
    }

    /// Serializes the packet into its wire envelope.
    pub fn encode(&self) -> (r: Vec<u8>)
        ensures
            r@ == Self::spec_encode(self@),
    {
        let mut payload = list_key_vec();
        emit_profile_list(&mut payload, &self.list);
        payload.push(125);
        proof {
            assert(payload@ =~= Self::spec_payload(self@));
        }
        let kind = Self::kind_vec();
        encode_envelope(&kind, &payload)
    }

    /// Decodes a buffer as this packet kind.
    pub fn make_packet(buf: &Vec<u8>) -> (r: Result<Self, LudoPacketError>)
        ensures
            match Self::spec_make(buf@) {
                Ok(v) => r matches Ok(p) && p@ == v && p.wf(),
                Err(e) => r matches Err(e2) && e2 == e,
            },
    {
        let kind = Self::kind_vec();
        let json = match decode_envelope(buf, &kind) {
            Err(e) => {
                return Err(e);
            },
            Ok(json) => json,
        };
        proof {
            assert(json@.skip(0) =~= json@);
        }
        let l1 = list_key_vec();
        let j1 = match expect_at(&json, 0, &l1) {
            None => {
                return Err(LudoPacketError::MalformedPayload);
            },
            Some(j) => j,
        };
        let (list, j2) = match parse_profile_list_at(&json, j1) {
            None => {
                return Err(LudoPacketError::MalformedPayload);
            },
            Some(p) => p,
        };
        let l2 = brace_close_vec();
        let j3 = match expect_at(&json, j2, &l2) {
            None => {
                return Err(LudoPacketError::MalformedPayload);
            },
            Some(j) => j,
        };
        if j3 != json.len() {
            proof {
                assert(json@.skip(j3 as int).len() > 0);
            }
            return Err(LudoPacketError::MalformedPayload);
        }
        proof {
            assert(json@.skip(j3 as int).len() == 0);
        }
        Ok(LudoGameOutcomePlayerProfilesPacket { list })
    }

    /// Decoding an encoded roster yields the same profiles, for any
    /// well-formed roster whose nicknames stay clear of the closing
    /// delimiter — the exclusion the wire format demands of free text.
    pub proof fn lemma_round_trip_clean_nicknames(v: Seq<LudoGameProfileView>)
        requires
            forall|i: int| 0 <= i < v.len() ==> (#[trigger] v[i]).wf(),
            forall|i: int|
                0 <= i < v.len() ==> !contains_sub((#[trigger] v[i]).nickname, lit_data_close()),
        ensures
            Self::spec_make(Self::spec_encode(v)) == Ok::<_, LudoPacketError>(v),
    {
        assert(lit_data_close() =~= seq![93u8, 35u8]);
        lemma_payload_keys_no_hash();
        crate::game::lemma_emit_profile_items_no_close(v);
        let items = crate::game::spec_emit_profile_items(v);
        assert(crate::json::spec_no_close_pair(seq![91u8]));
        assert(crate::json::spec_no_close_pair(seq![93u8]));
        assert(crate::json::spec_no_close_pair(lit_brace_close()));
        crate::json::lemma_no_close_concat(seq![91u8], items);
        crate::json::lemma_no_close_concat(seq![91u8] + items, seq![93u8]);
        assert(spec_emit_profile_list(v) == seq![91u8] + items + seq![93u8]);
        crate::json::lemma_no_hash_no_close(lit_list_key());
        crate::json::lemma_no_close_concat(lit_list_key(), spec_emit_profile_list(v));
        assert(spec_emit_profile_list(v)[0] == 91);
        crate::json::lemma_no_close_concat(
            lit_list_key() + spec_emit_profile_list(v),
            lit_brace_close(),
        );
        crate::bytes::lemma_contains_pair(Self::spec_payload(v), 93, 35);
        Self::lemma_round_trip(v);
    }

    /// Decoding an encoded roster yields the same profiles, for any
    /// well-formed roster whose payload avoids the closing delimiter.
    pub proof fn lemma_round_trip(v: Seq<LudoGameProfileView>)
        requires
            forall|i: int| 0 <= i < v.len() ==> v[i].wf(),
            !contains_sub(Self::spec_payload(v), lit_data_close()),
        ensures
            Self::spec_make(Self::spec_encode(v)) == Ok::<_, LudoPacketError>(v),
    {
        Self::lemma_kind_hash_free();
        lemma_decode_envelope(Self::spec_kind(), Self::spec_payload(v));
        let r1 = spec_emit_profile_list(v) + lit_brace_close();
        assert(Self::spec_payload(v) =~= lit_list_key() + r1);
        lemma_expect_emit(lit_list_key(), r1);
        lemma_parse_emit_profile_list(v, lit_brace_close());
        lemma_expect_emit(lit_brace_close(), Seq::empty());
        assert(lit_brace_close() + Seq::<u8>::empty() =~= lit_brace_close());
    }
}

/// None of the payload-key literals holds a `#` byte.
proof fn lemma_payload_keys_no_hash()
    ensures
        spec_no_hash(lit_key_key()),
        spec_no_hash(lit_profile_key()),
        spec_no_hash(lit_data_key()),
        spec_no_hash(lit_list_key()),
{
    reveal_strlit("{\"key\":");
    assert(vstd::string::is_ascii("{\"key\":"));
    vstd::string::is_ascii_spec_bytes("{\"key\":");
    assert(lit_key_key() =~= Seq::new("{\"key\":"@.len(), |i: int| "{\"key\":"@.index(i) as u8));
    reveal_strlit("{\"profile\":");
    assert(vstd::string::is_ascii("{\"profile\":"));
    vstd::string::is_ascii_spec_bytes("{\"profile\":");
    assert(lit_profile_key() =~= Seq::new(
        "{\"profile\":"@.len(),
        |i: int| "{\"profile\":"@.index(i) as u8,
    ));
    reveal_strlit("{\"data\":");
    assert(vstd::string::is_ascii("{\"data\":"));
    vstd::string::is_ascii_spec_bytes("{\"data\":");
    assert(lit_data_key() =~= Seq::new("{\"data\":"@.len(), |i: int| "{\"data\":"@.index(i) as u8));
    reveal_strlit("{\"list\":");
    assert(vstd::string::is_ascii("{\"list\":"));
    vstd::string::is_ascii_spec_bytes("{\"list\":");
    assert(lit_list_key() =~= Seq::new("{\"list\":"@.len(), |i: int| "{\"list\":"@.index(i) as u8));
}

/// A handshake payload holds digits, punctuation and a key name: never
/// the closing delimiter.
proof fn lemma_handshake_payload_no_close(v: Seq<u8>)
    ensures
        !contains_sub(LudoGameIncomeHandshakePacket::spec_payload(v), lit_data_close()),
{
    lemma_payload_keys_no_hash();
    crate::json::lemma_emit_u8_list_no_hash(v);
    assert(spec_no_hash(lit_brace_close()));
    crate::json::lemma_no_hash_concat(lit_key_key(), crate::json::spec_emit_u8_list(v));
    crate::json::lemma_no_hash_concat(
        lit_key_key() + crate::json::spec_emit_u8_list(v),
        lit_brace_close(),
    );
    crate::json::lemma_no_hash_no_close(LudoGameIncomeHandshakePacket::spec_payload(v));
    assert(lit_data_close() =~= seq![93u8, 35u8]);
}

/// A profile-reply payload holds digits, punctuation and key names:
/// never the closing delimiter.
proof fn lemma_record_payload_no_close(v: LudoGameProfileDataView)
    ensures
        !contains_sub(LudoGameOutcomeProfilePacket::spec_payload(v), lit_data_close()),
{
    lemma_payload_keys_no_hash();
    crate::game::lemma_emit_record_no_hash(v);
    assert(spec_no_hash(lit_brace_close()));
    crate::json::lemma_no_hash_concat(lit_data_key(), spec_emit_record(v));
    crate::json::lemma_no_hash_concat(lit_data_key() + spec_emit_record(v), lit_brace_close());
    crate::json::lemma_no_hash_no_close(LudoGameOutcomeProfilePacket::spec_payload(v));
    assert(lit_data_close() =~= seq![93u8, 35u8]);
}

/// `{"reason":` holds no `]` byte.
proof fn lemma_reason_key_bytes()
    ensures
        lit_reason_key().len() == 10,
        forall|m: int| 0 <= m < lit_reason_key().len() ==> lit_reason_key()[m] != 93,
{
    reveal_strlit("{\"reason\":");
    assert(vstd::string::is_ascii("{\"reason\":"));
    vstd::string::is_ascii_spec_bytes("{\"reason\":");
    assert(lit_reason_key() =~= Seq::new(
        "{\"reason\":"@.len(),
        |i: int| "{\"reason\":"@.index(i) as u8,
    ));
}

/// A reason free of the closing delimiter gives a disconnect payload
/// free of it: escaping introduces no `]` or `#`, and the payload's own
/// punctuation never puts them side by side.
proof fn lemma_reason_payload_no_close(v: Seq<u8>)
    requires
        !contains_sub(v, lit_data_close()),
    ensures
        !contains_sub(LudoGameOutcomeDisconnectPacket::spec_payload(v), lit_data_close()),
{
    assert(lit_data_close() =~= seq![93u8, 35u8]);
    crate::bytes::lemma_contains_pair(v, 93, 35);
    assert(spec_no_close_pair(v));
    lemma_escape_no_close(v);
    let esc = spec_escape(v);
    let el = esc.len() as int;
    let payload = LudoGameOutcomeDisconnectPacket::spec_payload(v);
    lemma_reason_key_bytes();
    assert(payload =~= lit_reason_key() + (seq![34u8] + esc + seq![34u8]) + seq![125u8]);
    assert(payload.len() == 13 + el);
    assert forall|j: int|
        0 <= j && j + 1 < payload.len() implies !(#[trigger] payload[j] == 93 && payload[j + 1]
        == 35) by {
        if payload[j] == 93 {
            if j < 10 {
                assert(payload[j] == lit_reason_key()[j]);
            } else if j == 10 {
                assert(payload[j] == 34);
            } else if j < 11 + el {
                assert(payload[j] == esc[j - 11]);
                if j + 1 < 11 + el {
                    assert(payload[j + 1] == esc[j - 10]);
                    assert(!(esc[j - 11] == 93 && esc[j - 10] == 35));
                } else {
                    assert(payload[j + 1] == 34);
                }
            } else if j == 11 + el {
                assert(payload[j] == 34);
            } else {
                assert(payload[j] == 125);
            }
        }
    }
    crate::bytes::lemma_contains_pair(payload, 93, 35);
}

/// `{}` never contains the closing delimiter.
proof fn lemma_empty_obj_no_close()
    ensures
        !contains_sub(lit_empty_obj(), lit_data_close()),
{
    assert forall|i: int| !crate::bytes::is_match_at(lit_empty_obj(), lit_data_close(), i) by {
        if crate::bytes::is_match_at(lit_empty_obj(), lit_data_close(), i) {
            assert(lit_empty_obj().subrange(i, i + 2)[0] == lit_empty_obj()[i]);
            assert(lit_empty_obj()[i] == 93);
        }
    }
}

} // verus!
