//! The game's data model: lifecycle state, player profiles and persistent
//! score records, together with the JSON object form each one takes on the
//! wire and in the profile file.

use vstd::prelude::*;
use vstd::string::StrSliceExecFns;
use vstd::string::StringSliceAdditionalSpecFns;
use crate::bytes::clone_bytes;
use crate::json::spec_emit_u8_list;
use crate::json::spec_emit_string;
use crate::json::spec_emit_u128;
use crate::json::spec_parse_u8_list;
use crate::json::spec_parse_string;
use crate::json::spec_parse_u128;
use crate::json::spec_expect;
use crate::json::is_digit;
use crate::json::emit_u8_list;
use crate::json::emit_string;
use crate::json::emit_u128;
use crate::json::parse_u8_list_at;
use crate::json::parse_string_at;
use crate::json::parse_u128_at;
use crate::json::expect_at;
use crate::json::lemma_expect_emit;
use crate::json::lemma_parse_emit_u8_list;
use crate::json::lemma_parse_emit_string;
use crate::json::lemma_parse_emit_u128;
use crate::json::lemma_parse_u8_list_len;
use crate::json::lemma_parse_string_len;
use crate::json::lemma_parse_u128_consumes;
use crate::json::spec_no_hash;
use crate::json::spec_no_close_pair;
use crate::json::spec_escape;
use crate::json::lemma_no_hash_concat;
use crate::json::lemma_no_hash_no_close;
use crate::json::lemma_no_close_concat;
use crate::json::lemma_escape_no_close;
use crate::json::lemma_emit_u8_list_no_hash;
use crate::json::lemma_emit_u128_no_hash;

verus! {

/// Process-wide match lifecycle state.
#[derive(Clone, Copy, PartialEq, Eq, Structural, Debug)]
pub enum LudoGameState {
    Waiting,
    InGame,
    Closing,
}

/// The process-wide match object, holding the lifecycle state.
#[derive(Clone, Copy, PartialEq, Eq, Structural, Debug)]
pub struct LudoGameObject {
    pub state: LudoGameState,
}

/// Client-declared identity descriptor: a 16-byte identity, a free-text
/// nickname (UTF-8 bytes), and an age.
#[derive(Debug)]
pub struct LudoGameProfile {
    pub unique_id: Vec<u8>,
    pub nickname: Vec<u8>,
    pub age: u8,
}

/// Mathematical model of a profile.
pub struct LudoGameProfileView {
    pub unique_id: Seq<u8>,
    pub nickname: Seq<u8>,
    pub age: u8,
}

impl View for LudoGameProfile {
    type V = LudoGameProfileView;

    open spec fn view(&self) -> LudoGameProfileView {
        LudoGameProfileView {
            unique_id: self.unique_id@,
            nickname: self.nickname@,
            age: self.age,
        }
    }
}

impl LudoGameProfileView {
    /// A profile is well formed when its identity is 16 bytes.
    pub open spec fn wf(self) -> bool {
        self.unique_id.len() == 16
    }
}

impl LudoGameProfile {
    pub open spec fn wf(&self) -> bool {
        self@.wf()
    }

    pub fn new(unique_id: Vec<u8>, nickname: Vec<u8>, age: u8) -> (r: Self)
        ensures
            r@ == (LudoGameProfileView { unique_id: unique_id@, nickname: nickname@, age }),
    {
        LudoGameProfile { unique_id, nickname, age }
    }
}

impl Clone for LudoGameProfile {
    fn clone(&self) -> (r: Self)
        ensures
            r@ == self@,
    {
        LudoGameProfile {
            unique_id: clone_bytes(&self.unique_id),
            nickname: clone_bytes(&self.nickname),
            age: self.age,
        }
    }
}

/// Persistent score record: a 16-byte identity and its cumulative points.
#[derive(Debug)]
pub struct LudoGameProfileData {
    pub unique_id: Vec<u8>,
    pub points: u128,
}

/// Mathematical model of a score record.
pub struct LudoGameProfileDataView {
    pub unique_id: Seq<u8>,
    pub points: u128,
}

impl View for LudoGameProfileData {
    type V = LudoGameProfileDataView;

    open spec fn view(&self) -> LudoGameProfileDataView {
        LudoGameProfileDataView { unique_id: self.unique_id@, points: self.points }
    }
}

impl LudoGameProfileDataView {
    /// A record is well formed when its identity is 16 bytes.
    pub open spec fn wf(self) -> bool {
        self.unique_id.len() == 16
    }
}

impl LudoGameProfileData {
    pub open spec fn wf(&self) -> bool {
        self@.wf()
    }

    pub fn new(unique_id: Vec<u8>, points: u128) -> (r: Self)
        ensures
            r@ == (LudoGameProfileDataView { unique_id: unique_id@, points: points }),
    {
        LudoGameProfileData { unique_id, points }
    }
}

impl Clone for LudoGameProfileData {
    fn clone(&self) -> (r: Self)
        ensures
            r@ == self@,
    {
        LudoGameProfileData { unique_id: clone_bytes(&self.unique_id), points: self.points }
    }
}

pub open spec fn lit_unique_id_key() -> Seq<u8> {
    "{\"unique_id\":".spec_bytes()
}

pub open spec fn lit_nickname_key() -> Seq<u8> {
    ",\"nickname\":".spec_bytes()
}

pub open spec fn lit_age_key() -> Seq<u8> {
    ",\"age\":".spec_bytes()
}

pub open spec fn lit_points_key() -> Seq<u8> {
    ",\"points\":".spec_bytes()
}

pub open spec fn lit_brace_close() -> Seq<u8> {
    seq![125u8]
}

fn unique_id_key_vec() -> (r: Vec<u8>)
    ensures
        r@ == lit_unique_id_key(),
{
    "{\"unique_id\":".as_bytes_vec()
}

fn nickname_key_vec() -> (r: Vec<u8>)
    ensures
        r@ == lit_nickname_key(),
{
    ",\"nickname\":".as_bytes_vec()
}

fn age_key_vec() -> (r: Vec<u8>)
    ensures
        r@ == lit_age_key(),
{
    ",\"age\":".as_bytes_vec()
}

fn points_key_vec() -> (r: Vec<u8>)
    ensures
        r@ == lit_points_key(),
{
    ",\"points\":".as_bytes_vec()
}

fn brace_close_vec() -> (r: Vec<u8>)
    ensures
        r@ == lit_brace_close(),
{
    let mut v: Vec<u8> = Vec::new();
    v.push(125);
    proof {
        assert(v@ =~= lit_brace_close());
    }
    v
}

/// JSON object form of a profile.
pub open spec fn spec_emit_profile(v: LudoGameProfileView) -> Seq<u8> {
    lit_unique_id_key() + spec_emit_u8_list(v.unique_id) + lit_nickname_key() + spec_emit_string(
        v.nickname,
    ) + lit_age_key() + spec_emit_u128(v.age as u128) + lit_brace_close()
}

/// Parses a profile object; the identity must be 16 bytes and the age a
/// byte-sized number.
pub open spec fn spec_parse_profile(s: Seq<u8>) -> Option<(LudoGameProfileView, Seq<u8>)> {
    match spec_expect(s, lit_unique_id_key()) {
        None => None,
        Some(s1) => match spec_parse_u8_list(s1) {
            None => None,
            Some((uid, s2)) => if uid.len() != 16 {
                None
            } else {
                match spec_expect(s2, lit_nickname_key()) {
                    None => None,
                    Some(s3) => match spec_parse_string(s3) {
                        None => None,
                        Some((nick, s4)) => match spec_expect(s4, lit_age_key()) {
                            None => None,
                            Some(s5) => match spec_parse_u128(s5) {
                                None => None,
                                Some((age, s6)) => if age > 255 {
                                    None
                                } else {
                                    match spec_expect(s6, lit_brace_close()) {
                                        None => None,
                                        Some(s7) => Some(
                                            (
                                                LudoGameProfileView {
                                                    unique_id: uid,
                                                    nickname: nick,
                                                    age: age as u8,
                                                },
                                                s7,
                                            ),
                                        ),
                                    }
                                },
                            },
                        },
                    },
                }
            },
        },
    }
}

/// JSON object form of a score record.
pub open spec fn spec_emit_record(v: LudoGameProfileDataView) -> Seq<u8> {
    lit_unique_id_key() + spec_emit_u8_list(v.unique_id) + lit_points_key() + spec_emit_u128(
        v.points,
    ) + lit_brace_close()
}

/// Parses a record object; the identity must be 16 bytes.
pub open spec fn spec_parse_record(s: Seq<u8>) -> Option<(LudoGameProfileDataView, Seq<u8>)> {
    match spec_expect(s, lit_unique_id_key()) {
        None => None,
        Some(s1) => match spec_parse_u8_list(s1) {
            None => None,
            Some((uid, s2)) => if uid.len() != 16 {
                None
            } else {
                match spec_expect(s2, lit_points_key()) {
                    None => None,
                    Some(s3) => match spec_parse_u128(s3) {
                        None => None,
                        Some((points, s4)) => match spec_expect(s4, lit_brace_close()) {
                            None => None,
                            Some(s5) => Some(
                                ((LudoGameProfileDataView { unique_id: uid, points: points }), s5),
                            ),
                        },
                    },
                }
            },
        },
    }
}

/// Parsing an emitted profile followed by anything yields the profile.
#[verifier::spinoff_prover]
pub proof fn lemma_parse_emit_profile(v: LudoGameProfileView, rest: Seq<u8>)
    requires
        v.wf(),
    ensures
        spec_parse_profile(spec_emit_profile(v) + rest) == Some((v, rest)),
{
    let total = spec_emit_profile(v) + rest;
    let r5 = lit_brace_close() + rest;
    let r4 = spec_emit_u128(v.age as u128) + r5;
    let r3 = lit_age_key() + r4;
    let r2 = spec_emit_string(v.nickname) + r3;
    let r1 = lit_nickname_key() + r2;
    let r0 = spec_emit_u8_list(v.unique_id) + r1;
    assert(total =~= lit_unique_id_key() + r0);
    lemma_expect_emit(lit_unique_id_key(), r0);
    assert(r0 =~= spec_emit_u8_list(v.unique_id) + r1);
    lemma_parse_emit_u8_list(v.unique_id, r1);
    lemma_expect_emit(lit_nickname_key(), r2);
    lemma_parse_emit_string(v.nickname, r3);
    lemma_expect_emit(lit_age_key(), r4);
    assert(r5[0] == 125 && !is_digit(125));
    lemma_parse_emit_u128(v.age as u128, r5);
    lemma_expect_emit(lit_brace_close(), rest);
    assert(spec_parse_profile(total) == Some((v, rest)));
}

/// Parsing an emitted record followed by anything yields the record.
#[verifier::spinoff_prover]
pub proof fn lemma_parse_emit_record(v: LudoGameProfileDataView, rest: Seq<u8>)
    requires
        v.wf(),
    ensures
        spec_parse_record(spec_emit_record(v) + rest) == Some((v, rest)),
{
    let total = spec_emit_record(v) + rest;
    let r3 = lit_brace_close() + rest;
    let r2 = spec_emit_u128(v.points) + r3;
    let r1 = lit_points_key() + r2;
    let r0 = spec_emit_u8_list(v.unique_id) + r1;
    assert(total =~= lit_unique_id_key() + r0);
    lemma_expect_emit(lit_unique_id_key(), r0);
    lemma_parse_emit_u8_list(v.unique_id, r1);
    lemma_expect_emit(lit_points_key(), r2);
    assert(r3[0] == 125 && !is_digit(125));
    lemma_parse_emit_u128(v.points, r3);
    lemma_expect_emit(lit_brace_close(), rest);
    assert(spec_parse_record(total) == Some((v, rest)));
}

/// A successful profile parse consumes at least one byte.
pub proof fn lemma_parse_profile_len(s: Seq<u8>)
    ensures
        (match spec_parse_profile(s) {
            Some((v, r)) => r.len() < s.len(),
            None => true,
        }),
{
    match spec_expect(s, lit_unique_id_key()) {
        None => {},
        Some(s1) => {
            assert(lit_unique_id_key().len() > 0) by {
                reveal_strlit("{\"unique_id\":");
                assert("{\"unique_id\":"@.len() == 13);
                lemma_lit_bytes_len("{\"unique_id\":");
            }
            lemma_parse_u8_list_len(s1);
            match spec_parse_u8_list(s1) {
                None => {},
                Some((uid, s2)) => {
                    match spec_expect(s2, lit_nickname_key()) {
                        None => {},
                        Some(s3) => {
                            lemma_parse_string_len(s3);
                            match spec_parse_string(s3) {
                                None => {},
                                Some((nick, s4)) => {
                                    match spec_expect(s4, lit_age_key()) {
                                        None => {},
                                        Some(s5) => {
                                            lemma_parse_u128_consumes(s5);
                                        },
                                    }
                                },
                            }
                        },
                    }
                },
            }
        },
    }
}

/// A successful record parse consumes at least one byte.
pub proof fn lemma_parse_record_len(s: Seq<u8>)
    ensures
        (match spec_parse_record(s) {
            Some((v, r)) => r.len() < s.len(),
            None => true,
        }),
{
    match spec_expect(s, lit_unique_id_key()) {
        None => {},
        Some(s1) => {
            assert(lit_unique_id_key().len() > 0) by {
                reveal_strlit("{\"unique_id\":");
                assert("{\"unique_id\":"@.len() == 13);
                lemma_lit_bytes_len("{\"unique_id\":");
            }
            lemma_parse_u8_list_len(s1);
            match spec_parse_u8_list(s1) {
                None => {},
                Some((uid, s2)) => {
                    match spec_expect(s2, lit_points_key()) {
                        None => {},
                        Some(s3) => {
                            lemma_parse_u128_consumes(s3);
                        },
                    }
                },
            }
        },
    }
}

/// The UTF-8 byte form of an ASCII literal has the literal's length.
proof fn lemma_lit_bytes_len(s: &str)
    requires
        vstd::string::is_ascii(s),
    ensures
        s.spec_bytes().len() == s@.len(),
{
    vstd::string::is_ascii_spec_bytes(s);
}

/// Appends the JSON object form of a profile.
pub fn emit_profile(out: &mut Vec<u8>, p: &LudoGameProfile)
    ensures
        final(out)@ == old(out)@ + spec_emit_profile(p@),
{
    let mut l1 = unique_id_key_vec();
    out.append(&mut l1);
    emit_u8_list(out, &p.unique_id);
    let mut l2 = nickname_key_vec();
    out.append(&mut l2);
    emit_string(out, &p.nickname);
    let mut l3 = age_key_vec();
    out.append(&mut l3);
    emit_u128(out, p.age as u128);
    out.push(125);
    proof {
        assert(out@ =~= old(out)@ + spec_emit_profile(p@));
    }
}

/// Appends the JSON object form of a record.
pub fn emit_record(out: &mut Vec<u8>, d: &LudoGameProfileData)
    ensures
        final(out)@ == old(out)@ + spec_emit_record(d@),
{
    let mut l1 = unique_id_key_vec();
    out.append(&mut l1);
    emit_u8_list(out, &d.unique_id);
    let mut l2 = points_key_vec();
    out.append(&mut l2);
    emit_u128(out, d.points);
    out.push(125);
    proof {
        assert(out@ =~= old(out)@ + spec_emit_record(d@));
    }
}

/// Parses a profile object at position `i`.
pub fn parse_profile_at(s: &Vec<u8>, i: usize) -> (r: Option<(LudoGameProfile, usize)>)
    requires
        i <= s@.len(),
    ensures
        match r {
            Some(p) => i <= p.1 <= s@.len() && spec_parse_profile(s@.skip(i as int)) == Some(
                (p.0@, s@.skip(p.1 as int)),
            ) && p.0.wf(),
            None => spec_parse_profile(s@.skip(i as int)) is None,
        },
{
    let l1 = unique_id_key_vec();
    let j1 = match expect_at(s, i, &l1) {
        None => {
            return None;
        },
        Some(j) => j,
    };
    let (uid, j2) = match parse_u8_list_at(s, j1) {
        None => {
            return None;
        },
        Some(p) => p,
    };
    if uid.len() != 16 {
        return None;
    }
    let l2 = nickname_key_vec();
    let j3 = match expect_at(s, j2, &l2) {
        None => {
            return None;
        },
        Some(j) => j,
    };
    let (nick, j4) = match parse_string_at(s, j3) {
        None => {
            return None;
        },
        Some(p) => p,
    };
    let l3 = age_key_vec();
    let j5 = match expect_at(s, j4, &l3) {
        None => {
            return None;
        },
        Some(j) => j,
    };
    let (age, j6) = match parse_u128_at(s, j5) {
        None => {
            return None;
        },
        Some(p) => p,
    };
    if age > 255 {
        return None;
    }
    let l4 = brace_close_vec();
    let j7 = match expect_at(s, j6, &l4) {
        None => {
            return None;
        },
        Some(j) => j,
    };
    Some((LudoGameProfile { unique_id: uid, nickname: nick, age: age as u8 }, j7))
}

/// Parses a record object at position `i`.
pub fn parse_record_at(s: &Vec<u8>, i: usize) -> (r: Option<(LudoGameProfileData, usize)>)
    requires
        i <= s@.len(),
    ensures
        match r {
            Some(p) => i <= p.1 <= s@.len() && spec_parse_record(s@.skip(i as int)) == Some(
                (p.0@, s@.skip(p.1 as int)),
            ) && p.0.wf(),
            None => spec_parse_record(s@.skip(i as int)) is None,
        },
{
    let l1 = unique_id_key_vec();
    let j1 = match expect_at(s, i, &l1) {
        None => {
            return None;
        },
        Some(j) => j,
    };
    let (uid, j2) = match parse_u8_list_at(s, j1) {
        None => {
            return None;
        },
        Some(p) => p,
    };
    if uid.len() != 16 {
        return None;
    }
    let l2 = points_key_vec();
    let j3 = match expect_at(s, j2, &l2) {
        None => {
            return None;
        },
        Some(j) => j,
    };
    let (points, j4) = match parse_u128_at(s, j3) {
        None => {
            return None;
        },
        Some(p) => p,
    };
    let l3 = brace_close_vec();
    let j5 = match expect_at(s, j4, &l3) {
        None => {
            return None;
        },
        Some(j) => j,
    };
    Some((LudoGameProfileData { unique_id: uid, points: points }, j5))
}

/// The models of a vector of profiles.
pub open spec fn spec_profiles_view(l: Seq<LudoGameProfile>) -> Seq<LudoGameProfileView> {
    Seq::new(l.len(), |i: int| l[i]@)
}

/// Comma-separated profile objects of a nonempty roster.
pub open spec fn spec_emit_profile_items(l: Seq<LudoGameProfileView>) -> Seq<u8>
    decreases l.len(),
{
    if l.len() == 0 {
        Seq::empty()
    } else if l.len() == 1 {
        spec_emit_profile(l[0])
    } else {
        spec_emit_profile(l[0]) + seq![44u8] + spec_emit_profile_items(l.skip(1))
    }
}

/// A JSON array of profile objects.
pub open spec fn spec_emit_profile_list(l: Seq<LudoGameProfileView>) -> Seq<u8> {
    seq![91u8] + spec_emit_profile_items(l) + seq![93u8]
}

/// One or more profile objects separated by commas, consuming the
/// closing bracket.
pub open spec fn spec_parse_profile_items(s: Seq<u8>) -> Option<
    (Seq<LudoGameProfileView>, Seq<u8>),
>
    decreases s.len(),
        via spec_parse_profile_items_dec
{
    match spec_parse_profile(s) {
        None => None,
        Some((v, r)) => if r.len() > 0 && r[0] == 44 {
            match spec_parse_profile_items(r.skip(1)) {
                None => None,
                Some((t, rr)) => Some((seq![v] + t, rr)),
            }
        } else if r.len() > 0 && r[0] == 93 {
            Some((seq![v], r.skip(1)))
        } else {
            None
        },
    }
}

#[via_fn]
proof fn spec_parse_profile_items_dec(s: Seq<u8>) {
    lemma_parse_profile_len(s);
}

/// A full profile list: brackets around zero or more profile objects.
pub open spec fn spec_parse_profile_list(s: Seq<u8>) -> Option<
    (Seq<LudoGameProfileView>, Seq<u8>),
> {
    if s.len() == 0 || s[0] != 91 {
        None
    } else if s.len() >= 2 && s[1] == 93 {
        Some((Seq::empty(), s.skip(2)))
    } else {
        spec_parse_profile_items(s.skip(1))
    }
}

/// An emitted profile object starts with the opening brace of its first
/// key.
proof fn lemma_unique_id_key_first()
    ensures
        lit_unique_id_key().len() == 13,
        lit_unique_id_key()[0] == 123,
{
    reveal_strlit("{\"unique_id\":");
    assert(vstd::string::is_ascii("{\"unique_id\":"));
    vstd::string::is_ascii_spec_bytes("{\"unique_id\":");
    assert(lit_unique_id_key() =~= Seq::new(
        "{\"unique_id\":"@.len(),
        |i: int| "{\"unique_id\":"@.index(i) as u8,
    ));
}

#[verifier::spinoff_prover]
proof fn lemma_parse_emit_profile_items(l: Seq<LudoGameProfileView>, rest: Seq<u8>)
    requires
        l.len() >= 1,
        forall|i: int| 0 <= i < l.len() ==> l[i].wf(),
    ensures
        spec_parse_profile_items(spec_emit_profile_items(l) + (seq![93u8] + rest)) == Some(
            (l, rest),
        ),
    decreases l.len(),
{
    let v = l[0];
    if l.len() == 1 {
        let total = spec_emit_profile_items(l) + (seq![93u8] + rest);
        lemma_parse_emit_profile(v, seq![93u8] + rest);
        assert(total =~= spec_emit_profile(v) + (seq![93u8] + rest));
        let r = seq![93u8] + rest;
        assert(r[0] == 93);
        assert(r.skip(1) =~= rest);
        assert(seq![l[0]] =~= l);
    } else {
        let total = spec_emit_profile_items(l) + (seq![93u8] + rest);
        let tail_items = spec_emit_profile_items(l.skip(1));
        let rest1 = seq![44u8] + (tail_items + (seq![93u8] + rest));
        assert(total =~= spec_emit_profile(v) + rest1);
        lemma_parse_emit_profile(v, rest1);
        assert(rest1[0] == 44);
        assert(rest1.skip(1) =~= tail_items + (seq![93u8] + rest));
        assert(forall|i: int| 0 <= i < l.skip(1).len() ==> l.skip(1)[i].wf());
        lemma_parse_emit_profile_items(l.skip(1), rest);
        assert(seq![l[0]] + l.skip(1) =~= l);
    }
}

/// Parsing an emitted profile list followed by anything yields the list
/// back, for well-formed profiles.
#[verifier::spinoff_prover]
pub proof fn lemma_parse_emit_profile_list(l: Seq<LudoGameProfileView>, rest: Seq<u8>)
    requires
        forall|i: int| 0 <= i < l.len() ==> l[i].wf(),
    ensures
        spec_parse_profile_list(spec_emit_profile_list(l) + rest) == Some((l, rest)),
{
    let total = spec_emit_profile_list(l) + rest;
    assert(total[0] == 91);
    if l.len() == 0 {
        assert(spec_emit_profile_items(l) == Seq::<u8>::empty());
        assert(total =~= seq![91u8, 93u8] + rest);
        assert(total[1] == 93);
        assert(total.skip(2) =~= rest);
        assert(l =~= Seq::<LudoGameProfileView>::empty());
    } else {
        lemma_unique_id_key_first();
        assert(total[1] == spec_emit_profile_items(l)[0]);
        assert(spec_emit_profile_items(l)[0] == spec_emit_profile(l[0])[0]);
        assert(spec_emit_profile(l[0])[0] == lit_unique_id_key()[0]);
        assert(total[1] != 93);
        assert(total.skip(1) =~= spec_emit_profile_items(l) + (seq![93u8] + rest));
        lemma_parse_emit_profile_items(l, rest);
    }
}

#[verifier::spinoff_prover]
proof fn lemma_emit_profile_items_snoc(l: Seq<LudoGameProfileView>, x: LudoGameProfileView)
    requires
        l.len() >= 1,
    ensures
        spec_emit_profile_items(l.push(x)) == spec_emit_profile_items(l) + seq![44u8]
            + spec_emit_profile(x),
    decreases l.len(),
{
    if l.len() == 1 {
        let lp = l.push(x);
        assert(lp[0] == l[0]);
        assert(lp.skip(1) =~= seq![x]);
        assert(spec_emit_profile_items(seq![x]) == spec_emit_profile(x));
    } else {
        let lp = l.push(x);
        assert(lp[0] == l[0]);
        assert(lp.skip(1) =~= l.skip(1).push(x));
        lemma_emit_profile_items_snoc(l.skip(1), x);
        assert(spec_emit_profile(lp[0]) + seq![44u8] + (spec_emit_profile_items(l.skip(1))
            + seq![44u8] + spec_emit_profile(x)) =~= (spec_emit_profile(l[0]) + seq![44u8]
            + spec_emit_profile_items(l.skip(1))) + seq![44u8] + spec_emit_profile(x));
    }
}

/// Appends the JSON array form of a roster of profiles.
pub fn emit_profile_list(out: &mut Vec<u8>, l: &Vec<LudoGameProfile>)
    ensures
        final(out)@ == old(out)@ + spec_emit_profile_list(spec_profiles_view(l@)),
{
    let ghost lv = spec_profiles_view(l@);
    let l_len: usize = l.len();
    out.push(91);
    if l_len > 0 {
        emit_profile(out, &l[0]);
        proof {
            assert(lv.take(1)[0] == lv[0]);
            assert(spec_emit_profile_items(lv.take(1)) == spec_emit_profile(l@[0]@));
            assert(out@ =~= old(out)@ + seq![91u8] + spec_emit_profile_items(lv.take(1)));
        }
        let mut k: usize = 1;
        while k < l_len
            invariant
                l_len == l@.len(),
                lv == spec_profiles_view(l@),
                1 <= k <= l_len,
                out@ == old(out)@ + seq![91u8] + spec_emit_profile_items(lv.take(k as int)),
            decreases l_len - k,
        {
            out.push(44);
            emit_profile(out, &l[k]);
            proof {
                assert(lv.take(k + 1) =~= lv.take(k as int).push(lv[k as int]));
                lemma_emit_profile_items_snoc(lv.take(k as int), lv[k as int]);
                assert(out@ =~= old(out)@ + seq![91u8] + spec_emit_profile_items(lv.take(k + 1)));
            }
            k += 1;
        }
    }
    out.push(93);
    proof {
        assert(lv.take(l_len as int) =~= lv);
        assert(out@ =~= old(out)@ + spec_emit_profile_list(lv));
    }
}

/// Parses a profile list at position `i`; returns the profiles and the
/// position after the closing bracket.
pub fn parse_profile_list_at(s: &Vec<u8>, i: usize) -> (r: Option<(Vec<LudoGameProfile>, usize)>)
    requires
        i <= s@.len(),
    ensures
        match r {
            Some(p) => i <= p.1 <= s@.len() && spec_parse_profile_list(s@.skip(i as int)) == Some(
                (spec_profiles_view(p.0@), s@.skip(p.1 as int)),
            ) && forall|m: int| 0 <= m < p.0@.len() ==> p.0@[m].wf(),
            None => spec_parse_profile_list(s@.skip(i as int)) is None,
        },
{
    let s_len: usize = s.len();
    if i == s_len {
        return None;
    }
    proof {
        assert(s@.skip(i as int)[0] == s@[i as int]);
    }
    if s[i] != 91 {
        return None;
    }
    if i + 1 < s_len {
        proof {
            assert(s@.skip(i as int)[1] == s@[i + 1]);
        }
        if s[i + 1] == 93 {
            proof {
                assert(s@.skip(i as int).skip(2) =~= s@.skip(i + 2));
                assert(spec_profiles_view(Seq::<LudoGameProfile>::empty())
                    =~= Seq::<LudoGameProfileView>::empty());
            }
            return Some((Vec::new(), i + 2));
        }
    } else {
        proof {
            assert(s@.skip(i as int).len() == 1);
            assert(spec_expect(s@.skip(i + 1), lit_unique_id_key()) is None) by {
                lemma_unique_id_key_first();
            }
        }
        return None;
    }
    proof {
        assert(s@.skip(i as int).skip(1) =~= s@.skip(i + 1));
    }
    let mut out: Vec<LudoGameProfile> = Vec::new();
    let mut j: usize = i + 1;
    loop
        invariant
            s_len == s@.len(),
            i + 1 <= j <= s_len,
            forall|m: int| 0 <= m < out@.len() ==> out@[m].wf(),
            spec_parse_profile_list(s@.skip(i as int)) == spec_parse_profile_items(s@.skip(i + 1)),
            (match spec_parse_profile_items(s@.skip(j as int)) {
                None => spec_parse_profile_items(s@.skip(i + 1)) is None,
                Some((t, r)) => spec_parse_profile_items(s@.skip(i + 1)) == Some(
                    (spec_profiles_view(out@) + t, r),
                ),
            }),
        decreases s_len - j,
    {
        let parsed = parse_profile_at(s, j);
        match parsed {
            None => {
                return None;
            },
            Some((p, j2)) => {
                proof {
                    lemma_parse_profile_len(s@.skip(j as int));
                }
                if j2 == s_len {
                    proof {
                        assert(s@.skip(j2 as int).len() == 0);
                    }
                    return None;
                }
                let c = s[j2];
                proof {
                    assert(s@.skip(j2 as int)[0] == s@[j2 as int]);
                }
                if c == 44 {
                    proof {
                        assert(s@.skip(j2 as int).skip(1) =~= s@.skip(j2 + 1));
                        crate::json::step_cons(
                            spec_parse_profile_items(s@.skip(i + 1)),
                            spec_parse_profile_items(s@.skip(j2 + 1)),
                            spec_profiles_view(out@),
                            p@,
                        );
                        assert(spec_profiles_view(out@.push(p)) =~= spec_profiles_view(out@).push(
                            p@,
                        ));
                    }
                    out.push(p);
                    j = j2 + 1;
                } else if c == 93 {
                    proof {
                        assert(s@.skip(j2 as int).skip(1) =~= s@.skip(j2 + 1));
                        assert(spec_profiles_view(out@) + seq![p@] =~= spec_profiles_view(
                            out@,
                        ).push(p@));
                        assert(spec_profiles_view(out@.push(p)) =~= spec_profiles_view(out@).push(
                            p@,
                        ));
                    }
                    out.push(p);
                    return Some((out, j2 + 1));
                } else {
                    return None;
                }
            },
        }
    }
}

/// None of the object-key literals holds a `#` byte.
proof fn lemma_object_keys_no_hash()
    ensures
        spec_no_hash(lit_unique_id_key()),
        spec_no_hash(lit_nickname_key()),
        spec_no_hash(lit_age_key()),
        spec_no_hash(lit_points_key()),
{
    reveal_strlit("{\"unique_id\":");
    assert(vstd::string::is_ascii("{\"unique_id\":"));
    vstd::string::is_ascii_spec_bytes("{\"unique_id\":");
    assert(lit_unique_id_key() =~= Seq::new(
        "{\"unique_id\":"@.len(),
        |i: int| "{\"unique_id\":"@.index(i) as u8,
    ));
    reveal_strlit(",\"nickname\":");
    assert(vstd::string::is_ascii(",\"nickname\":"));
    vstd::string::is_ascii_spec_bytes(",\"nickname\":");
    assert(lit_nickname_key() =~= Seq::new(
        ",\"nickname\":"@.len(),
        |i: int| ",\"nickname\":"@.index(i) as u8,
    ));
    reveal_strlit(",\"age\":");
    assert(vstd::string::is_ascii(",\"age\":"));
    vstd::string::is_ascii_spec_bytes(",\"age\":");
    assert(lit_age_key() =~= Seq::new(",\"age\":"@.len(), |i: int| ",\"age\":"@.index(i) as u8));
    reveal_strlit(",\"points\":");
    assert(vstd::string::is_ascii(",\"points\":"));
    vstd::string::is_ascii_spec_bytes(",\"points\":");
    assert(lit_points_key() =~= Seq::new(
        ",\"points\":"@.len(),
        |i: int| ",\"points\":"@.index(i) as u8,
    ));
}

/// An emitted record holds digits, punctuation and key names: no `#`
/// byte at all, so never the closing delimiter.
pub proof fn lemma_emit_record_no_hash(v: LudoGameProfileDataView)
    ensures
        spec_no_hash(spec_emit_record(v)),
{
    lemma_object_keys_no_hash();
    lemma_emit_u8_list_no_hash(v.unique_id);
    lemma_emit_u128_no_hash(v.points);
    let s1 = lit_unique_id_key();
    let s2 = spec_emit_u8_list(v.unique_id);
    let s3 = lit_points_key();
    let s4 = spec_emit_u128(v.points);
    let s5 = lit_brace_close();
    assert(spec_no_hash(s5));
    lemma_no_hash_concat(s1, s2);
    lemma_no_hash_concat(s1 + s2, s3);
    lemma_no_hash_concat(s1 + s2 + s3, s4);
    lemma_no_hash_concat(s1 + s2 + s3 + s4, s5);
}

/// An emitted profile stays clear of the closing delimiter whenever its
/// nickname does; it opens with a brace and closes with one.
pub proof fn lemma_emit_profile_no_close(v: LudoGameProfileView)
    requires
        !crate::bytes::contains_sub(v.nickname, seq![93u8, 35u8]),
    ensures
        spec_no_close_pair(spec_emit_profile(v)),
        spec_emit_profile(v).len() > 0,
        spec_emit_profile(v)[0] == 123,
        spec_emit_profile(v).last() == 125,
{
    lemma_object_keys_no_hash();
    crate::bytes::lemma_contains_pair(v.nickname, 93, 35);
    assert(spec_no_close_pair(v.nickname));
    lemma_escape_no_close(v.nickname);
    let esc = spec_escape(v.nickname);
    let a = lit_unique_id_key() + spec_emit_u8_list(v.unique_id) + lit_nickname_key()
        + seq![34u8];
    let b = seq![34u8] + lit_age_key() + spec_emit_u128(v.age as u128) + lit_brace_close();
    assert(spec_emit_profile(v) =~= a + (esc + b));
    lemma_emit_u8_list_no_hash(v.unique_id);
    lemma_emit_u128_no_hash(v.age as u128);
    assert(spec_no_hash(seq![34u8]));
    assert(spec_no_hash(lit_brace_close()));
    lemma_no_hash_concat(lit_unique_id_key(), spec_emit_u8_list(v.unique_id));
    lemma_no_hash_concat(
        lit_unique_id_key() + spec_emit_u8_list(v.unique_id),
        lit_nickname_key(),
    );
    lemma_no_hash_concat(
        lit_unique_id_key() + spec_emit_u8_list(v.unique_id) + lit_nickname_key(),
        seq![34u8],
    );
    lemma_no_hash_concat(seq![34u8], lit_age_key());
    lemma_no_hash_concat(seq![34u8] + lit_age_key(), spec_emit_u128(v.age as u128));
    lemma_no_hash_concat(
        seq![34u8] + lit_age_key() + spec_emit_u128(v.age as u128),
        lit_brace_close(),
    );
    lemma_no_hash_no_close(a);
    lemma_no_hash_no_close(b);
    assert(a.last() == 34);
    assert(b[0] == 34);
    lemma_no_close_concat(esc, b);
    assert(esc.len() > 0 ==> (esc + b)[0] == esc[0]);
    assert(esc.len() == 0 ==> (esc + b)[0] == b[0]);
    lemma_no_close_concat(a, esc + b);
    assert(spec_no_close_pair(spec_emit_profile(v)));
    lemma_unique_id_key_first();
    assert(spec_emit_profile(v)[0] == lit_unique_id_key()[0]);
    assert(spec_emit_profile(v).last() == lit_brace_close()[0]);
}

/// A comma-separated run of emitted profiles stays clear of the closing
/// delimiter whenever every nickname does.
pub proof fn lemma_emit_profile_items_no_close(l: Seq<LudoGameProfileView>)
    requires
        forall|i: int|
            0 <= i < l.len() ==> !crate::bytes::contains_sub(
                (#[trigger] l[i]).nickname,
                seq![93u8, 35u8],
            ),
    ensures
        spec_no_close_pair(spec_emit_profile_items(l)),
        l.len() > 0 ==> spec_emit_profile_items(l).len() > 0 && spec_emit_profile_items(l)[0]
            == 123 && spec_emit_profile_items(l).last() == 125,
    decreases l.len(),
{
    if l.len() == 0 {
    } else if l.len() == 1 {
        lemma_emit_profile_no_close(l[0]);
    } else {
        lemma_emit_profile_no_close(l[0]);
        assert(forall|i: int|
            0 <= i < l.skip(1).len() ==> (#[trigger] l.skip(1)[i]) == l[i + 1]);
        lemma_emit_profile_items_no_close(l.skip(1));
        let first = spec_emit_profile(l[0]);
        let rest = spec_emit_profile_items(l.skip(1));
        assert(spec_no_close_pair(seq![44u8]));
        lemma_no_close_concat(seq![44u8], rest);
        lemma_no_close_concat(first, seq![44u8] + rest);
        assert(spec_emit_profile_items(l) =~= first + (seq![44u8] + rest));
        assert(spec_emit_profile_items(l)[0] == first[0]);
        assert(spec_emit_profile_items(l).last() == rest.last());
    }
}

/// Serializes a client's identity file: exactly one profile object.
pub fn profile_to_json(profile: &LudoGameProfile) -> (r: Vec<u8>)
    ensures
        r@ == spec_emit_profile(profile@),
{
    let mut out: Vec<u8> = Vec::new();
    emit_profile(&mut out, profile);
    proof {
        assert(out@ =~= spec_emit_profile(profile@));
    }
    out
}

/// What the whole identity file must hold: exactly one profile object.
pub open spec fn spec_profile_file_parse(s: Seq<u8>) -> Option<LudoGameProfileView> {
    match spec_parse_profile(s) {
        None => None,
        Some((v, r)) => if r.len() == 0 {
            Some(v)
        } else {
            None
        },
    }
}

/// Parses a client's identity file.
pub fn profile_from_json(bytes: &Vec<u8>) -> (r: Option<LudoGameProfile>)
    ensures
        match r {
            Some(p) => spec_profile_file_parse(bytes@) == Some(p@) && p.wf(),
            None => spec_profile_file_parse(bytes@) is None,
        },
{
    proof {
        assert(bytes@.skip(0) =~= bytes@);
    }
    let (p, j) = match parse_profile_at(bytes, 0) {
        None => {
            return None;
        },
        Some(p) => p,
    };
    if j != bytes.len() {
        proof {
            assert(bytes@.skip(j as int).len() > 0);
        }
        return None;
    }
    proof {
        assert(bytes@.skip(j as int).len() == 0);
    }
    Some(p)
}

/// The identity file reads back as the profile that was saved.
pub proof fn lemma_profile_file_round_trip(v: LudoGameProfileView)
    requires
        v.wf(),
    ensures
        spec_profile_file_parse(spec_emit_profile(v)) == Some(v),
{
    lemma_parse_emit_profile(v, Seq::empty());
    assert(spec_emit_profile(v) + Seq::<u8>::empty() =~= spec_emit_profile(v));
}

/// The models of a vector of records.
pub open spec fn spec_records_view(l: Seq<LudoGameProfileData>) -> Seq<LudoGameProfileDataView> {
    Seq::new(l.len(), |i: int| l[i]@)
}

/// Comma-separated record objects of a nonempty persisted list.
pub open spec fn spec_emit_record_items(l: Seq<LudoGameProfileDataView>) -> Seq<u8>
    decreases l.len(),
{
    if l.len() == 0 {
        Seq::empty()
    } else if l.len() == 1 {
        spec_emit_record(l[0])
    } else {
        spec_emit_record(l[0]) + seq![44u8] + spec_emit_record_items(l.skip(1))
    }
}

/// The persisted profile file: a JSON array of record objects.
pub open spec fn spec_emit_record_list(l: Seq<LudoGameProfileDataView>) -> Seq<u8> {
    seq![91u8] + spec_emit_record_items(l) + seq![93u8]
}

/// One or more record objects separated by commas, consuming the
/// closing bracket.
pub open spec fn spec_parse_record_items(s: Seq<u8>) -> Option<
    (Seq<LudoGameProfileDataView>, Seq<u8>),
>
    decreases s.len(),
        via spec_parse_record_items_dec
{
    match spec_parse_record(s) {
        None => None,
        Some((v, r)) => if r.len() > 0 && r[0] == 44 {
            match spec_parse_record_items(r.skip(1)) {
                None => None,
                Some((t, rr)) => Some((seq![v] + t, rr)),
            }
        } else if r.len() > 0 && r[0] == 93 {
            Some((seq![v], r.skip(1)))
        } else {
            None
        },
    }
}

#[via_fn]
proof fn spec_parse_record_items_dec(s: Seq<u8>) {
    lemma_parse_record_len(s);
}

/// A full record list: brackets around zero or more record objects.
pub open spec fn spec_parse_record_list(s: Seq<u8>) -> Option<
    (Seq<LudoGameProfileDataView>, Seq<u8>),
> {
    if s.len() == 0 || s[0] != 91 {
        None
    } else if s.len() >= 2 && s[1] == 93 {
        Some((Seq::empty(), s.skip(2)))
    } else {
        spec_parse_record_items(s.skip(1))
    }
}

#[verifier::spinoff_prover]
proof fn lemma_parse_emit_record_items(l: Seq<LudoGameProfileDataView>, rest: Seq<u8>)
    requires
        l.len() >= 1,
        forall|i: int| 0 <= i < l.len() ==> l[i].wf(),
    ensures
        spec_parse_record_items(spec_emit_record_items(l) + (seq![93u8] + rest)) == Some((l, rest)),
    decreases l.len(),
{
    let v = l[0];
    if l.len() == 1 {
        let total = spec_emit_record_items(l) + (seq![93u8] + rest);
        lemma_parse_emit_record(v, seq![93u8] + rest);
        assert(total =~= spec_emit_record(v) + (seq![93u8] + rest));
        let r = seq![93u8] + rest;
        assert(r[0] == 93);
        assert(r.skip(1) =~= rest);
        assert(seq![l[0]] =~= l);
    } else {
        let total = spec_emit_record_items(l) + (seq![93u8] + rest);
        let tail_items = spec_emit_record_items(l.skip(1));
        let rest1 = seq![44u8] + (tail_items + (seq![93u8] + rest));
        assert(total =~= spec_emit_record(v) + rest1);
        lemma_parse_emit_record(v, rest1);
        assert(rest1[0] == 44);
        assert(rest1.skip(1) =~= tail_items + (seq![93u8] + rest));
        assert(forall|i: int| 0 <= i < l.skip(1).len() ==> l.skip(1)[i].wf());
        lemma_parse_emit_record_items(l.skip(1), rest);
        assert(seq![l[0]] + l.skip(1) =~= l);
    }
}

/// Parsing an emitted record list followed by anything yields the list
/// back, for well-formed records.
#[verifier::spinoff_prover]
pub proof fn lemma_parse_emit_record_list(l: Seq<LudoGameProfileDataView>, rest: Seq<u8>)
    requires
        forall|i: int| 0 <= i < l.len() ==> l[i].wf(),
    ensures
        spec_parse_record_list(spec_emit_record_list(l) + rest) == Some((l, rest)),
{
    let total = spec_emit_record_list(l) + rest;
    assert(total[0] == 91);
    if l.len() == 0 {
        assert(spec_emit_record_items(l) == Seq::<u8>::empty());
        assert(total =~= seq![91u8, 93u8] + rest);
        assert(total[1] == 93);
        assert(total.skip(2) =~= rest);
        assert(l =~= Seq::<LudoGameProfileDataView>::empty());
    } else {
        lemma_unique_id_key_first();
        assert(total[1] == spec_emit_record_items(l)[0]);
        assert(spec_emit_record_items(l)[0] == spec_emit_record(l[0])[0]);
        assert(spec_emit_record(l[0])[0] == lit_unique_id_key()[0]);
        assert(total[1] != 93);
        assert(total.skip(1) =~= spec_emit_record_items(l) + (seq![93u8] + rest));
        lemma_parse_emit_record_items(l, rest);
    }
}

#[verifier::spinoff_prover]
proof fn lemma_emit_record_items_snoc(l: Seq<LudoGameProfileDataView>, x: LudoGameProfileDataView)
    requires
        l.len() >= 1,
    ensures
        spec_emit_record_items(l.push(x)) == spec_emit_record_items(l) + seq![44u8]
            + spec_emit_record(x),
    decreases l.len(),
{
    if l.len() == 1 {
        let lp = l.push(x);
        assert(lp[0] == l[0]);
        assert(lp.skip(1) =~= seq![x]);
        assert(spec_emit_record_items(seq![x]) == spec_emit_record(x));
    } else {
        let lp = l.push(x);
        assert(lp[0] == l[0]);
        assert(lp.skip(1) =~= l.skip(1).push(x));
        lemma_emit_record_items_snoc(l.skip(1), x);
        assert(spec_emit_record(lp[0]) + seq![44u8] + (spec_emit_record_items(l.skip(1))
            + seq![44u8] + spec_emit_record(x)) =~= (spec_emit_record(l[0]) + seq![44u8]
            + spec_emit_record_items(l.skip(1))) + seq![44u8] + spec_emit_record(x));
    }
}

/// Serializes the whole profile store as the persisted JSON array; the
/// save is a full overwrite of the file with these bytes.
pub fn profiles_to_json(list: &Vec<LudoGameProfileData>) -> (r: Vec<u8>)
    ensures
        r@ == spec_emit_record_list(spec_records_view(list@)),
{
    let ghost lv = spec_records_view(list@);
    let l_len: usize = list.len();
    let mut out: Vec<u8> = Vec::new();
    out.push(91);
    if l_len > 0 {
        emit_record(&mut out, &list[0]);
        proof {
            assert(lv.take(1)[0] == lv[0]);
            assert(spec_emit_record_items(lv.take(1)) == spec_emit_record(list@[0]@));
            assert(out@ =~= seq![91u8] + spec_emit_record_items(lv.take(1)));
        }
        let mut k: usize = 1;
        while k < l_len
            invariant
                l_len == list@.len(),
                lv == spec_records_view(list@),
                1 <= k <= l_len,
                out@ == seq![91u8] + spec_emit_record_items(lv.take(k as int)),
            decreases l_len - k,
        {
            out.push(44);
            emit_record(&mut out, &list[k]);
            proof {
                assert(lv.take(k + 1) =~= lv.take(k as int).push(lv[k as int]));
                lemma_emit_record_items_snoc(lv.take(k as int), lv[k as int]);
                assert(out@ =~= seq![91u8] + spec_emit_record_items(lv.take(k + 1)));
            }
            k += 1;
        }
    }
    out.push(93);
    proof {
        assert(lv.take(l_len as int) =~= lv);
        assert(out@ =~= spec_emit_record_list(lv));
    }
    out
}

/// What the whole persisted file must hold: exactly one record array.
pub open spec fn spec_profiles_file_parse(s: Seq<u8>) -> Option<Seq<LudoGameProfileDataView>> {
    match spec_parse_record_list(s) {
        None => None,
        Some((l, r)) => if r.len() == 0 {
            Some(l)
        } else {
            None
        },
    }
}

/// Parses the persisted profile file; anything but exactly one record
/// array is rejected, and the caller treats that as fatal at startup.
pub fn profiles_from_json(bytes: &Vec<u8>) -> (r: Option<Vec<LudoGameProfileData>>)
    ensures
        match r {
            Some(list) => spec_profiles_file_parse(bytes@) == Some(spec_records_view(list@))
                && forall|i: int| 0 <= i < list@.len() ==> (#[trigger] list@[i]).wf(),
            None => spec_profiles_file_parse(bytes@) is None,
        },
{
    proof {
        assert(bytes@.skip(0) =~= bytes@);
    }
    let (list, j) = match parse_record_list_at(bytes, 0) {
        None => {
            return None;
        },
        Some(p) => p,
    };
    if j != bytes.len() {
        proof {
            assert(bytes@.skip(j as int).len() > 0);
        }
        return None;
    }
    proof {
        assert(bytes@.skip(j as int).len() == 0);
    }
    Some(list)
}

/// The persisted form reads back as the records that were saved.
pub proof fn lemma_profiles_file_round_trip(l: Seq<LudoGameProfileDataView>)
    requires
        forall|i: int| 0 <= i < l.len() ==> l[i].wf(),
    ensures
        spec_profiles_file_parse(spec_emit_record_list(l)) == Some(l),
{
    lemma_parse_emit_record_list(l, Seq::empty());
    assert(spec_emit_record_list(l) + Seq::<u8>::empty() =~= spec_emit_record_list(l));
}

/// Parses a record list at position `i`; returns the records and the
/// position after the closing bracket.
pub fn parse_record_list_at(s: &Vec<u8>, i: usize) -> (r: Option<(Vec<LudoGameProfileData>, usize)>)
    requires
        i <= s@.len(),
    ensures
        match r {
            Some(p) => i <= p.1 <= s@.len() && spec_parse_record_list(s@.skip(i as int)) == Some(
                (spec_records_view(p.0@), s@.skip(p.1 as int)),
            ) && forall|m: int| 0 <= m < p.0@.len() ==> (#[trigger] p.0@[m]).wf(),
            None => spec_parse_record_list(s@.skip(i as int)) is None,
        },
{
    let s_len: usize = s.len();
    if i == s_len {
        return None;
    }
    proof {
        assert(s@.skip(i as int)[0] == s@[i as int]);
    }
    if s[i] != 91 {
        return None;
    }
    if i + 1 < s_len {
        proof {
            assert(s@.skip(i as int)[1] == s@[i + 1]);
        }
        if s[i + 1] == 93 {
            proof {
                assert(s@.skip(i as int).skip(2) =~= s@.skip(i + 2));
                assert(spec_records_view(Seq::<LudoGameProfileData>::empty())
                    =~= Seq::<LudoGameProfileDataView>::empty());
            }
            return Some((Vec::new(), i + 2));
        }
    } else {
        proof {
            assert(s@.skip(i as int).len() == 1);
            assert(spec_expect(s@.skip(i + 1), lit_unique_id_key()) is None) by {
                lemma_unique_id_key_first();
            }
        }
        return None;
    }
    proof {
        assert(s@.skip(i as int).skip(1) =~= s@.skip(i + 1));
    }
    let mut out: Vec<LudoGameProfileData> = Vec::new();
    let mut j: usize = i + 1;
    loop
        invariant
            s_len == s@.len(),
            i + 1 <= j <= s_len,
            forall|m: int| 0 <= m < out@.len() ==> (#[trigger] out@[m]).wf(),
            spec_parse_record_list(s@.skip(i as int)) == spec_parse_record_items(s@.skip(i + 1)),
            (match spec_parse_record_items(s@.skip(j as int)) {
                None => spec_parse_record_items(s@.skip(i + 1)) is None,
                Some((t, r)) => spec_parse_record_items(s@.skip(i + 1)) == Some(
                    (spec_records_view(out@) + t, r),
                ),
            }),
        decreases s_len - j,
    {
        let parsed = parse_record_at(s, j);
        match parsed {
            None => {
                return None;
            },
            Some((p, j2)) => {
                proof {
                    lemma_parse_record_len(s@.skip(j as int));
                }
                if j2 == s_len {
                    proof {
                        assert(s@.skip(j2 as int).len() == 0);
                    }
                    return None;
                }
                let c = s[j2];
                proof {
                    assert(s@.skip(j2 as int)[0] == s@[j2 as int]);
                }
                if c == 44 {
                    proof {
                        assert(s@.skip(j2 as int).skip(1) =~= s@.skip(j2 + 1));
                        crate::json::step_cons(
                            spec_parse_record_items(s@.skip(i + 1)),
                            spec_parse_record_items(s@.skip(j2 + 1)),
                            spec_records_view(out@),
                            p@,
                        );
                        assert(spec_records_view(out@.push(p)) =~= spec_records_view(out@).push(
                            p@,
                        ));
                    }
                    out.push(p);
                    j = j2 + 1;
                } else if c == 93 {
                    proof {
                        assert(s@.skip(j2 as int).skip(1) =~= s@.skip(j2 + 1));
                        assert(spec_records_view(out@) + seq![p@] =~= spec_records_view(out@).push(
                            p@,
                        ));
                        assert(spec_records_view(out@.push(p)) =~= spec_records_view(out@).push(
                            p@,
                        ));
                    }
                    out.push(p);
                    return Some((out, j2 + 1));
                } else {
                    return None;
                }
            },
        }
    }
}

} // verus!
