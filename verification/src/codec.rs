//! The wire envelope: `type: <kind-name>, data: #[<json-payload>]#`.
//!
//! Decoding demands that the buffer contain the expected kind's name,
//! then takes the bytes strictly between the first `data: #[` and the
//! first `]#` after it, exactly as plain substring search finds them.
//! A payload whose JSON happens to contain `]#` therefore corrupts the
//! boundary; the round-trip lemmas state that exclusion explicitly.

use vstd::prelude::*;
use crate::bytes::contains_sub;
use crate::bytes::contains_bytes;
use crate::bytes::copy_range;
use crate::bytes::clone_bytes;
use crate::bytes::find_sub;
use crate::bytes::is_match_at;
use crate::bytes::spec_find;
use crate::bytes::lemma_find_char;
use crate::bytes::lemma_find_unique;

verus! {

/// Why a packet could not be decoded.
#[derive(Clone, Copy, PartialEq, Eq, Structural, Debug)]
pub enum LudoPacketError {
    /// The buffer does not name the expected packet kind.
    WrongKind,
    /// The kind is named but the envelope or its JSON payload is broken.
    MalformedPayload,
}

/// `type: ` — the envelope's leading tag.
pub open spec fn lit_type_prefix() -> Seq<u8> {
    seq![116u8, 121u8, 112u8, 101u8, 58u8, 32u8]
}

/// `data: #[` — the payload opener that decoding searches for.
pub open spec fn pat_data_open() -> Seq<u8> {
    seq![100u8, 97u8, 116u8, 97u8, 58u8, 32u8, 35u8, 91u8]
}

/// `, data: #[` — what encoding places between kind name and payload.
pub open spec fn lit_data_open() -> Seq<u8> {
    seq![44u8, 32u8] + pat_data_open()
}

/// `]#` — the payload closer.
pub open spec fn lit_data_close() -> Seq<u8> {
    seq![93u8, 35u8]
}

/// The full envelope for a kind name and an already-serialized payload.
pub open spec fn spec_envelope(kind: Seq<u8>, payload: Seq<u8>) -> Seq<u8> {
    lit_type_prefix() + kind + lit_data_open() + payload + lit_data_close()
}

/// The bytes strictly between the first `data: #[` and the first `]#`
/// after it, if both delimiters are present.
pub open spec fn spec_extract(s: Seq<u8>) -> Option<Seq<u8>> {
    match spec_find(s, pat_data_open(), 0) {
        None => None,
        Some(i) => {
            let start = i + pat_data_open().len();
            if start > s.len() {
                None
            } else {
                match spec_find(s.skip(start), lit_data_close(), 0) {
                    None => None,
                    Some(j) => Some(s.skip(start).take(j)),
                }
            }
        },
    }
}

/// Envelope decoding: wrong kind when the kind name is absent, malformed
/// when the delimiters are broken; otherwise the raw payload bytes.
pub open spec fn spec_decode_envelope(s: Seq<u8>, kind: Seq<u8>) -> Result<Seq<u8>, LudoPacketError> {
    if !contains_sub(s, kind) {
        Err(LudoPacketError::WrongKind)
    } else {
        match spec_extract(s) {
            None => Err(LudoPacketError::MalformedPayload),
            Some(p) => Ok(p),
        }
    }
}

fn type_prefix_vec() -> (r: Vec<u8>)
    ensures
        r@ == lit_type_prefix(),
{
    let mut v: Vec<u8> = Vec::new();
    v.push(116);
    v.push(121);
    v.push(112);
    v.push(101);
    v.push(58);
    v.push(32);
    proof {
        assert(v@ =~= lit_type_prefix());
    }
    v
}

fn data_open_pat_vec() -> (r: Vec<u8>)
    ensures
        r@ == pat_data_open(),
{
    let mut v: Vec<u8> = Vec::new();
    v.push(100);
    v.push(97);
    v.push(116);
    v.push(97);
    v.push(58);
    v.push(32);
    v.push(35);
    v.push(91);
    proof {
        assert(v@ =~= pat_data_open());
    }
    v
}

fn data_close_vec() -> (r: Vec<u8>)
    ensures
        r@ == lit_data_close(),
{
    let mut v: Vec<u8> = Vec::new();
    v.push(93);
    v.push(35);
    proof {
        assert(v@ =~= lit_data_close());
    }
    v
}

/// Builds the envelope around a serialized payload.
pub fn encode_envelope(kind: &Vec<u8>, payload: &Vec<u8>) -> (r: Vec<u8>)
    ensures
        r@ == spec_envelope(kind@, payload@),
{
    let mut out = type_prefix_vec();
    let mut k = clone_bytes(kind);
    out.append(&mut k);
    out.push(44);
    out.push(32);
    let mut pat = data_open_pat_vec();
    out.append(&mut pat);
    let mut p = clone_bytes(payload);
    out.append(&mut p);
    out.push(93);
    out.push(35);
    proof {
        assert(out@ =~= spec_envelope(kind@, payload@));
    }
    out
}

/// Extracts the bytes strictly between the first `data: #[` and the
/// first `]#` after it, or fails when either delimiter is missing.
pub fn regex(input: &Vec<u8>) -> (r: Result<Vec<u8>, LudoPacketError>)
    ensures
        match spec_extract(input@) {
            Some(p) => r matches Ok(v) && v@ == p,
            None => r matches Err(e) && e == LudoPacketError::MalformedPayload,
        },
{
    let pat = data_open_pat_vec();
    let found = find_sub(input, &pat);
    match found {
        None => {
            proof {
                lemma_find_char(input@, pat_data_open(), 0);
            }
            Err(LudoPacketError::MalformedPayload)
        },
        Some(i) => {
            let input_len = input.len();
            proof {
                lemma_find_unique(input@, pat_data_open(), i as int);
                assert(pat_data_open().len() == 8);
                assert(i + 8 <= input_len);
            }
            let start = i + 8;
            let tail = copy_range(input, start, input_len);
            proof {
                assert(tail@ =~= input@.skip(start as int));
            }
            let close = data_close_vec();
            let found2 = find_sub(&tail, &close);
            match found2 {
                None => {
                    proof {
                        lemma_find_char(tail@, lit_data_close(), 0);
                    }
                    Err(LudoPacketError::MalformedPayload)
                },
                Some(j) => {
                    proof {
                        lemma_find_unique(tail@, lit_data_close(), j as int);
                    }
                    let payload = copy_range(&tail, 0, j);
                    proof {
                        assert(payload@ =~= tail@.take(j as int));
                    }
                    Ok(payload)
                },
            }
        },
    }
}

/// Checks the kind name, then extracts the payload bytes between the
/// envelope delimiters.
pub fn decode_envelope(buf: &Vec<u8>, kind: &Vec<u8>) -> (r: Result<Vec<u8>, LudoPacketError>)
    ensures
        match spec_decode_envelope(buf@, kind@) {
            Ok(p) => r matches Ok(v) && v@ == p,
            Err(e) => r matches Err(e2) && e2 == e,
        },
{
    if !contains_bytes(buf, kind) {
        return Err(LudoPacketError::WrongKind);
    }
    regex(buf)
}

/// No window before the placed opener can match it: every such window
/// lacks the `#` byte.
#[verifier::spinoff_prover]
proof fn lemma_opener_no_early(kind: Seq<u8>, payload: Seq<u8>)
    requires
        forall|k: int| 0 <= k < kind.len() ==> kind[k] != 35,
    ensures
        forall|j: int|
            0 <= j < kind.len() + 8 ==> !is_match_at(spec_envelope(kind, payload), pat_data_open(), j),
{
    let env = spec_envelope(kind, payload);
    let klen = kind.len() as int;
    let pos = klen + 8;
    assert(lit_type_prefix()[0] != 35 && lit_type_prefix()[1] != 35 && lit_type_prefix()[2] != 35
        && lit_type_prefix()[3] != 35 && lit_type_prefix()[4] != 35 && lit_type_prefix()[5] != 35);
    assert(forall|x: int| 0 <= x < 10 && x != 8 ==> lit_data_open()[x] != 35);
    assert forall|j: int| 0 <= j < pos implies !is_match_at(env, pat_data_open(), j) by {
        if is_match_at(env, pat_data_open(), j) {
            assert(env.subrange(j, j + 8)[6] == env[j + 6]);
            assert(env[j + 6] == pat_data_open()[6]);
            assert(pat_data_open()[6] == 35);
            if j + 6 < 6 {
                assert(env[j + 6] == lit_type_prefix()[j + 6]);
            } else if j + 6 < 6 + klen {
                assert(env[j + 6] == kind[j]);
            } else {
                assert(env[j + 6] == lit_data_open()[j - klen]);
            }
        }
    }
}

/// The first occurrence of the payload opener in an envelope is the one
/// that encoding placed, provided the kind name is free of `#`.
#[verifier::spinoff_prover]
proof fn lemma_envelope_opener(kind: Seq<u8>, payload: Seq<u8>)
    requires
        forall|k: int| 0 <= k < kind.len() ==> kind[k] != 35,
    ensures
        spec_find(spec_envelope(kind, payload), pat_data_open(), 0) == Some(kind.len() + 8int),
{
    let env = spec_envelope(kind, payload);
    let klen = kind.len() as int;
    let pos = klen + 8;
    assert(env.subrange(pos, pos + 8) =~= pat_data_open());
    assert(is_match_at(env, pat_data_open(), pos));
    lemma_opener_no_early(kind, payload);
    lemma_find_unique(env, pat_data_open(), pos);
}

/// The first closing delimiter after the payload opener is the one that
/// encoding placed, provided the payload itself contains none.
proof fn lemma_envelope_closer(payload: Seq<u8>)
    requires
        !contains_sub(payload, lit_data_close()),
    ensures
        spec_find(payload + lit_data_close(), lit_data_close(), 0) == Some(payload.len() as int),
{
    let h2 = payload + lit_data_close();
    let plen = payload.len() as int;
    assert(h2.subrange(plen, plen + 2) =~= lit_data_close());
    assert(is_match_at(h2, lit_data_close(), plen));
    assert forall|j: int| 0 <= j < plen implies !is_match_at(h2, lit_data_close(), j) by {
        if is_match_at(h2, lit_data_close(), j) {
            assert(h2.subrange(j, j + 2)[0] == h2[j]);
            assert(h2.subrange(j, j + 2)[1] == h2[j + 1]);
            if j + 1 < plen {
                assert(payload.subrange(j, j + 2) =~= h2.subrange(j, j + 2));
                assert(is_match_at(payload, lit_data_close(), j));
                assert(contains_sub(payload, lit_data_close()));
            } else {
                assert(h2[j + 1] == lit_data_close()[0]);
                assert(h2[j + 1] == 35);
            }
        }
    }
    lemma_find_unique(h2, lit_data_close(), plen);
}

/// Decoding an encoded envelope finds the payload again, for any kind
/// name free of `#` and any payload free of the closing delimiter.
pub proof fn lemma_decode_envelope(kind: Seq<u8>, payload: Seq<u8>)
    requires
        forall|k: int| 0 <= k < kind.len() ==> kind[k] != 35,
        !contains_sub(payload, lit_data_close()),
    ensures
        spec_decode_envelope(spec_envelope(kind, payload), kind) == Ok::<_, LudoPacketError>(
            payload,
        ),
{
    let env = spec_envelope(kind, payload);
    let klen = kind.len() as int;
    let plen = payload.len() as int;
    let pos = klen + 8;
    // the kind name is present, right after the leading tag
    assert(env.subrange(6, 6 + klen) =~= kind);
    assert(is_match_at(env, kind, 6));
    assert(contains_sub(env, kind));
    lemma_envelope_opener(kind, payload);
    let start = pos + 8;
    let h2 = env.skip(start);
    assert(h2 =~= payload + lit_data_close());
    lemma_envelope_closer(payload);
    assert(h2.take(plen) =~= payload);
}

} // verus!
