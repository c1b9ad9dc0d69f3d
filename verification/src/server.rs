//! The authoritative session core: connection admission, the handshake
//! coordinator, profile sync against the persistent store, the match
//! lifecycle with its quorum rule, and the lobby roster.
//!
//! The core is pure protocol state. The caller drives it once per tick:
//! it reports connects, disconnects, inbound messages and expired
//! handshake timers, and performs the actions the core decides on —
//! sending bytes and dropping connections.

use vstd::prelude::*;
use vstd::string::StrSliceExecFns;
use vstd::string::StringSliceAdditionalSpecFns;
use crate::bytes::bytes_eq;
use crate::game::LudoGameObject;
use crate::game::LudoGameState;
use crate::game::LudoGameProfile;
use crate::game::LudoGameProfileView;
use crate::game::LudoGameProfileData;
use crate::game::LudoGameProfileDataView;
use crate::game::spec_records_view;
use crate::packets::LudoGameIncomeHandshakePacket;
use crate::packets::LudoGameIncomeProfilePacket;
use crate::packets::LudoGameOutcomeProfilePacket;
use crate::packets::LudoGameOutcomeHandshakeCallbackPacket;
use crate::packets::LudoGameOutcomeDisconnectPacket;
use crate::packets::LudoGameOutcomeGameStartPacket;
use crate::packets::LudoGameOutcomePlayerProfilesPacket;
use crate::session::ClientSession;
use crate::session::ClientSessionView;
use crate::session::HandshakeState;
use crate::session::hs_step;
use crate::session::spec_sessions_view;
use crate::session::spec_ids_unique;
use crate::session::spec_has_session;
use crate::session::spec_session_at;
use crate::session::spec_set_state;
use crate::session::spec_set_profile;
use crate::session::spec_remove_session;
use crate::session::spec_handshaked_count;
use crate::session::lemma_remove_index_props;

verus! {

/// Admission limits, fixed at process start.
#[derive(Clone, Copy, PartialEq, Eq, Structural, Debug)]
pub struct LudoGameConfiguration {
    /// Quorum: this many handshaked players start the match.
    pub min_players_to_start: u8,
    /// Capacity: no more than this many players are admitted.
    pub max_players_to_start: u8,
}

impl LudoGameConfiguration {
    pub fn new(min_players_to_start: u8, max_players_to_start: u8) -> (r: Self)
        ensures
            r.min_players_to_start == min_players_to_start,
            r.max_players_to_start == max_players_to_start,
    {
        LudoGameConfiguration { min_players_to_start, max_players_to_start }
    }
}

/// What the caller must do after a core step.
#[derive(Debug)]
pub enum LudoServerAction {
    /// Send these bytes to this connection, reliably and in order.
    Send { client_id: u64, message: Vec<u8> },
    /// Drop this connection at the transport.
    Disconnect { client_id: u64 },
}

/// Mathematical model of an action.
pub enum LudoServerActionView {
    Send { client_id: u64, message: Seq<u8> },
    Disconnect { client_id: u64 },
}

impl View for LudoServerAction {
    type V = LudoServerActionView;

    open spec fn view(&self) -> LudoServerActionView {
        match self {
            LudoServerAction::Send { client_id, message } => LudoServerActionView::Send {
                client_id: *client_id,
                message: message@,
            },
            LudoServerAction::Disconnect { client_id } => LudoServerActionView::Disconnect {
                client_id: *client_id,
            },
        }
    }
}

/// The models of a vector of actions.
pub open spec fn spec_actions_view(l: Seq<LudoServerAction>) -> Seq<LudoServerActionView> {
    Seq::new(l.len(), |i: int| l[i]@)
}

/// A well-formed store: every record well formed, every identity held
/// by at most one record.
pub open spec fn spec_store_wf(ps: Seq<LudoGameProfileDataView>) -> bool {
    &&& forall|i: int| 0 <= i < ps.len() ==> (#[trigger] ps[i]).wf()
    &&& forall|i: int, j: int| 0 <= i < j < ps.len() ==> ps[i].unique_id != ps[j].unique_id
}

/// First record of an identity in the store, if any.
pub open spec fn spec_store_lookup(
    ps: Seq<LudoGameProfileDataView>,
    uid: Seq<u8>,
) -> Option<LudoGameProfileDataView>
    decreases ps.len(),
{
    if ps.len() == 0 {
        None
    } else if ps[0].unique_id == uid {
        Some(ps[0])
    } else {
        spec_store_lookup(ps.skip(1), uid)
    }
}

/// The record a profile sync returns: the stored one, or a fresh
/// zero-point record for an unseen identity.
pub open spec fn spec_sync_result(
    ps: Seq<LudoGameProfileDataView>,
    uid: Seq<u8>,
) -> LudoGameProfileDataView {
    match spec_store_lookup(ps, uid) {
        Some(r) => r,
        None => LudoGameProfileDataView { unique_id: uid, points: 0 },
    }
}

/// The store after a profile sync: unchanged if the identity was known,
/// else extended by its fresh record.
pub open spec fn spec_store_after_sync(
    ps: Seq<LudoGameProfileDataView>,
    uid: Seq<u8>,
) -> Seq<LudoGameProfileDataView> {
    match spec_store_lookup(ps, uid) {
        Some(r) => ps,
        None => ps.push(LudoGameProfileDataView { unique_id: uid, points: 0 }),
    }
}

/// Decides whether a loaded record list is a well-formed store: every
/// identity 16 bytes, no identity held by two records. Callers use it to
/// establish the core constructor's demand on data read from disk.
pub fn check_store(profiles: &Vec<LudoGameProfileData>) -> (r: bool)
    ensures
        r == spec_store_wf(spec_records_view(profiles@)),
{
    let ghost ps = spec_records_view(profiles@);
    let n: usize = profiles.len();
    let mut i: usize = 0;
    while i < n
        invariant
            n == profiles@.len(),
            ps == spec_records_view(profiles@),
            i <= n,
            forall|k: int| 0 <= k < i ==> (#[trigger] ps[k]).wf(),
            forall|k: int, l: int| 0 <= k < l < n && k < i ==> ps[k].unique_id != ps[l].unique_id,
        decreases n - i,
    {
        if profiles[i].unique_id.len() != 16 {
            proof {
                assert(!ps[i as int].wf());
            }
            return false;
        }
        let mut j: usize = i + 1;
        while j < n
            invariant
                n == profiles@.len(),
                ps == spec_records_view(profiles@),
                i < n,
                i + 1 <= j <= n,
                forall|l: int| i < l < j ==> ps[i as int].unique_id != ps[l].unique_id,
            decreases n - j,
        {
            if bytes_eq(&profiles[i].unique_id, &profiles[j].unique_id) {
                proof {
                    assert(ps[i as int].unique_id == ps[j as int].unique_id);
                    assert(!spec_store_wf(ps)) by {
                        if spec_store_wf(ps) {
                            assert(ps[i as int].unique_id != ps[j as int].unique_id);
                        }
                    }
                }
                return false;
            }
            j += 1;
        }
        i += 1;
    }
    true
}

/// The whole authoritative server state.
pub struct LudoServerCore {
    /// Admission limits.
    pub configuration: LudoGameConfiguration,
    /// The 32-byte shared secret the handshake checks against.
    pub secret_key: Vec<u8>,
    /// Match lifecycle.
    pub game: LudoGameObject,
    /// One session per live connection.
    pub sessions: Vec<ClientSession>,
    /// The persistent score records, loaded at startup.
    pub profiles: Vec<LudoGameProfileData>,
}

impl LudoServerCore {
    /// The pool's model.
    pub open spec fn pool(&self) -> Seq<ClientSessionView> {
        spec_sessions_view(self.sessions@)
    }

    /// The store's model.
    pub open spec fn store(&self) -> Seq<LudoGameProfileDataView> {
        spec_records_view(self.profiles@)
    }

    /// Internal invariant: unique connection ids, a 32-byte secret, and
    /// well-formed records with unique identities.
    pub open spec fn wf(&self) -> bool {
        &&& spec_ids_unique(self.pool())
        &&& self.secret_key@.len() == 32
        &&& spec_store_wf(self.store())
    }

    /// Everything but the session pool is as before.
    pub open spec fn same_but_pool(&self, other: &Self) -> bool {
        &&& self.configuration == other.configuration
        &&& self.secret_key@ == other.secret_key@
        &&& self.game == other.game
        &&& self.store() == other.store()
    }

    /// A fresh core in the waiting state, with the records loaded from
    /// persistent storage.
    pub fn new(
        configuration: LudoGameConfiguration,
        secret_key: Vec<u8>,
        profiles: Vec<LudoGameProfileData>,
    ) -> (r: Self)
        requires
            secret_key@.len() == 32,
            spec_store_wf(spec_records_view(profiles@)),
        ensures
            r.wf(),
            r.configuration == configuration,
            r.secret_key@ == secret_key@,
            r.game.state == LudoGameState::Waiting,
            r.pool().len() == 0,
            r.store() == spec_records_view(profiles@),
    {
        let r = LudoServerCore {
            configuration,
            secret_key,
            game: LudoGameObject { state: LudoGameState::Waiting },
            sessions: Vec::new(),
            profiles,
        };
        proof {
            assert(r.pool() =~= Seq::<ClientSessionView>::empty());
        }
        r
    }

    /// First index of a session for this connection id.
    fn find_session(&self, client_id: u64) -> (r: Option<usize>)
        ensures
            match r {
                Some(i) => i < self.pool().len() && self.pool()[i as int].connection_id == client_id
                    && forall|j: int| 0 <= j < i ==> self.pool()[j].connection_id != client_id,
                None => !spec_has_session(self.pool(), client_id),
            },
    {
        let n: usize = self.sessions.len();
        let mut k: usize = 0;
        while k < n
            invariant
                n == self.sessions@.len(),
                k <= n,
                forall|j: int| 0 <= j < k ==> self.pool()[j].connection_id != client_id,
            decreases n - k,
        {
            if self.sessions[k].connection_id == client_id {
                return Some(k);
            }
            k += 1;
        }
        None
    }

    /// A new connection: admitted into the pool as `Pending` while the
    /// match is waiting and there is room, else refused. On admission the
    /// caller must start this connection's one-shot handshake timer; on
    /// refusal it must drop the connection.
    pub fn on_connect(&mut self, client_id: u64) -> (accepted: bool)
        requires
            old(self).wf(),
            !spec_has_session(old(self).pool(), client_id),
        ensures
            final(self).wf(),
            final(self).same_but_pool(old(self)),
            accepted == (old(self).game.state == LudoGameState::Waiting && old(self).pool().len()
                < old(self).configuration.max_players_to_start),
            accepted ==> final(self).pool() == old(self).pool().push(
                ClientSessionView {
                    connection_id: client_id,
                    handshake: HandshakeState::Pending,
                    profile: None,
                },
            ),
            !accepted ==> final(self).pool() == old(self).pool(),
    {
        let waiting = match self.game.state {
            LudoGameState::Waiting => true,
            _ => false,
        };
        if waiting && self.sessions.len() < self.configuration.max_players_to_start as usize {
            let session = ClientSession {
                connection_id: client_id,
                handshake: HandshakeState::Pending,
                profile: None,
            };
            self.sessions.push(session);
            proof {
                assert(final(self).pool() =~= old(self).pool().push(
                    ClientSessionView {
                        connection_id: client_id,
                        handshake: HandshakeState::Pending,
                        profile: None,
                    },
                ));
                let p = old(self).pool();
                let np = final(self).pool();
                assert forall|i: int, j: int|
                    0 <= i < j < np.len() implies np[i].connection_id != np[j].connection_id by {
                    assert(np[i] == p[i]);
                    if j == p.len() {
                        if p[i].connection_id == client_id {
                            assert(spec_has_session(p, client_id));
                        }
                    } else {
                        assert(np[j] == p[j]);
                    }
                }
            }
            true
        } else {
            proof {
                assert(final(self).pool() =~= old(self).pool());
            }
            false
        }
    }

    /// The transport reports a disconnection: the session, if any, is
    /// destroyed; its handshake timer dies with it on the caller's side.
    pub fn on_disconnect(&mut self, client_id: u64)
        requires
            old(self).wf(),
        ensures
            final(self).wf(),
            final(self).same_but_pool(old(self)),
            final(self).pool() == spec_remove_session(old(self).pool(), client_id),
            !spec_has_session(final(self).pool(), client_id),
    {
        let found = self.find_session(client_id);
        match found {
            None => {
                proof {
                    lemma_remove_absent(old(self).pool(), client_id);
                    assert(final(self).pool() =~= old(self).pool());
                }
            },
            Some(i) => {
                proof {
                    lemma_remove_index_props(old(self).pool(), client_id, i as int);
                }
                self.sessions.remove(i);
                proof {
                    assert(final(self).pool() =~= old(self).pool().remove(i as int));
                }
            },
        }
    }
}

/// `the game is already running` — sent when admission fails on the
/// lifecycle.
pub open spec fn reason_running() -> Seq<u8> {
    "the game is already running".spec_bytes()
}

/// `the game is already full` — sent when admission fails on capacity.
pub open spec fn reason_full() -> Seq<u8> {
    "the game is already full".spec_bytes()
}

impl LudoServerCore {
    /// How many sessions are fully handshaked.
    pub fn count_handshaked(&self) -> (r: usize)
        ensures
            r == spec_handshaked_count(self.pool()),
            r <= self.pool().len(),
    {
        let n: usize = self.sessions.len();
        let mut cnt: usize = 0;
        let mut k: usize = 0;
        proof {
            assert(self.pool().take(0) =~= Seq::<ClientSessionView>::empty());
        }
        while k < n
            invariant
                n == self.sessions@.len(),
                k <= n,
                cnt <= k,
                cnt == spec_handshaked_count(self.pool().take(k as int)),
            decreases n - k,
        {
            let hs = match self.sessions[k].handshake {
                HandshakeState::Handshaked => true,
                _ => false,
            };
            proof {
                assert(self.pool().take(k + 1).drop_last() =~= self.pool().take(k as int));
                assert(self.pool().take(k + 1).last() == self.pool()[k as int]);
            }
            if hs {
                cnt += 1;
            }
            k += 1;
        }
        proof {
            assert(self.pool().take(n as int) =~= self.pool());
        }
        cnt
    }

    /// Whether this connection's session is fully handshaked.
    pub fn is_handshaked(&self, client_id: u64) -> (r: bool)
        requires
            self.wf(),
        ensures
            r == (spec_has_session(self.pool(), client_id) && spec_session_at(
                self.pool(),
                client_id,
            ).handshake == HandshakeState::Handshaked),
    {
        let found = self.find_session(client_id);
        match found {
            None => false,
            Some(i) => {
                proof {
                    crate::session::lemma_session_at_unique(self.pool(), client_id, i as int);
                }
                match self.sessions[i].handshake {
                    HandshakeState::Handshaked => true,
                    _ => false,
                }
            },
        }
    }

    /// The handshake timer of a session fired: evict a still-pending
    /// session, and admit or refuse one whose secret already checked out.
    /// The caller performs the returned sends and disconnects, in order.
    pub fn on_handshake_timer(&mut self, client_id: u64) -> (actions: Vec<LudoServerAction>)
        requires
            old(self).wf(),
        ensures
            final(self).wf(),
            final(self).same_but_pool(old(self)),
            // a surviving session only steps along the handshake chain
            forall|id2: u64|
                #[trigger] spec_has_session(old(self).pool(), id2) && spec_has_session(
                    final(self).pool(),
                    id2,
                ) ==> hs_step(
                    spec_session_at(old(self).pool(), id2).handshake,
                    spec_session_at(final(self).pool(), id2).handshake,
                ),
            ({
                let p = old(self).pool();
                let np = final(self).pool();
                let av = spec_actions_view(actions@);
                let hs = spec_session_at(p, client_id).handshake;
                &&& (!spec_has_session(p, client_id) ==> np == p && av == Seq::<
                    LudoServerActionView,
                >::empty())
                &&& (spec_has_session(p, client_id) ==> {
                    &&& (hs == HandshakeState::Pending ==> np == spec_remove_session(p, client_id)
                        && !spec_has_session(np, client_id) && av == seq![
                        LudoServerActionView::Disconnect { client_id },
                    ])
                    &&& (hs == HandshakeState::SecretOk ==> {
                        &&& (old(self).game.state != LudoGameState::Waiting ==> np
                            == spec_remove_session(p, client_id) && !spec_has_session(
                            np,
                            client_id,
                        ) && av == seq![
                            LudoServerActionView::Send {
                                client_id,
                                message: LudoGameOutcomeDisconnectPacket::spec_encode(
                                    reason_running(),
                                ),
                            },
                            LudoServerActionView::Disconnect { client_id },
                        ])
                        &&& (old(self).game.state == LudoGameState::Waiting
                            && spec_handshaked_count(p)
                            >= old(self).configuration.max_players_to_start ==> np
                            == spec_remove_session(p, client_id) && !spec_has_session(
                            np,
                            client_id,
                        ) && av == seq![
                            LudoServerActionView::Send {
                                client_id,
                                message: LudoGameOutcomeDisconnectPacket::spec_encode(
                                    reason_full(),
                                ),
                            },
                            LudoServerActionView::Disconnect { client_id },
                        ])
                        &&& (old(self).game.state == LudoGameState::Waiting
                            && spec_handshaked_count(p)
                            < old(self).configuration.max_players_to_start ==> np == spec_set_state(
                            p,
                            client_id,
                            HandshakeState::Handshaked,
                        ) && spec_session_at(np, client_id).handshake == HandshakeState::Handshaked
                            && av == seq![
                            LudoServerActionView::Send {
                                client_id,
                                message: LudoGameOutcomeHandshakeCallbackPacket::spec_encode(),
                            },
                        ])
                    })
                    &&& (hs == HandshakeState::Handshaked ==> np == spec_remove_session(
                        p,
                        client_id,
                    ) && !spec_has_session(np, client_id) && av == seq![
                        LudoServerActionView::Disconnect { client_id },
                    ])
                })
            }),
    {
        let ghost p = old(self).pool();
        let found = self.find_session(client_id);
        let mut actions: Vec<LudoServerAction> = Vec::new();
        match found {
            None => {
                proof {
                    assert(spec_actions_view(actions@) =~= Seq::<LudoServerActionView>::empty());
                }
                actions
            },
            Some(i) => {
                proof {
                    crate::session::lemma_session_at_unique(p, client_id, i as int);
                }
                let st = self.sessions[i].handshake;
                match st {
                    HandshakeState::Pending => {
                        proof {
                            lemma_remove_index_props(p, client_id, i as int);
                            crate::session::lemma_remove_keeps_others(p, client_id, i as int);
                        }
                        self.sessions.remove(i);
                        actions.push(LudoServerAction::Disconnect { client_id });
                        proof {
                            assert(final(self).pool() =~= p.remove(i as int));
                            assert(spec_actions_view(actions@) =~= seq![
                                LudoServerActionView::Disconnect { client_id },
                            ]);
                        }
                        actions
                    },
                    HandshakeState::Handshaked => {
                        proof {
                            lemma_remove_index_props(p, client_id, i as int);
                            crate::session::lemma_remove_keeps_others(p, client_id, i as int);
                        }
                        self.sessions.remove(i);
                        actions.push(LudoServerAction::Disconnect { client_id });
                        proof {
                            assert(final(self).pool() =~= p.remove(i as int));
                            assert(spec_actions_view(actions@) =~= seq![
                                LudoServerActionView::Disconnect { client_id },
                            ]);
                        }
                        actions
                    },
                    HandshakeState::SecretOk => {
                        let waiting = match self.game.state {
                            LudoGameState::Waiting => true,
                            _ => false,
                        };
                        if !waiting {
                            let packet = LudoGameOutcomeDisconnectPacket::new(
                                "the game is already running".as_bytes_vec(),
                            );
                            let message = packet.encode();
                            proof {
                                lemma_remove_index_props(p, client_id, i as int);
                                crate::session::lemma_remove_keeps_others(p, client_id, i as int);
                            }
                            self.sessions.remove(i);
                            actions.push(LudoServerAction::Send { client_id, message });
                            actions.push(LudoServerAction::Disconnect { client_id });
                            proof {
                                assert(final(self).pool() =~= p.remove(i as int));
                                assert(spec_actions_view(actions@) =~= seq![
                                    LudoServerActionView::Send {
                                        client_id,
                                        message: LudoGameOutcomeDisconnectPacket::spec_encode(
                                            reason_running(),
                                        ),
                                    },
                                    LudoServerActionView::Disconnect { client_id },
                                ]);
                            }
                            actions
                        } else {
                            let cnt = self.count_handshaked();
                            if cnt >= self.configuration.max_players_to_start as usize {
                                let packet = LudoGameOutcomeDisconnectPacket::new(
                                    "the game is already full".as_bytes_vec(),
                                );
                                let message = packet.encode();
                                proof {
                                    lemma_remove_index_props(p, client_id, i as int);
                                    crate::session::lemma_remove_keeps_others(
                                        p,
                                        client_id,
                                        i as int,
                                    );
                                }
                                self.sessions.remove(i);
                                actions.push(LudoServerAction::Send { client_id, message });
                                actions.push(LudoServerAction::Disconnect { client_id });
                                proof {
                                    assert(final(self).pool() =~= p.remove(i as int));
                                    assert(spec_actions_view(actions@) =~= seq![
                                        LudoServerActionView::Send {
                                            client_id,
                                            message: LudoGameOutcomeDisconnectPacket::spec_encode(
                                                reason_full(),
                                            ),
                                        },
                                        LudoServerActionView::Disconnect { client_id },
                                    ]);
                                }
                                actions
                            } else {
                                let mut session = self.sessions.remove(i);
                                session.handshake = HandshakeState::Handshaked;
                                self.sessions.insert(i, session);
                                let packet = LudoGameOutcomeHandshakeCallbackPacket::new();
                                let message = packet.encode();
                                actions.push(LudoServerAction::Send { client_id, message });
                                proof {
                                    crate::session::lemma_set_state_props(
                                        p,
                                        client_id,
                                        HandshakeState::Handshaked,
                                    );
                                    assert(final(self).pool() =~= spec_set_state(
                                        p,
                                        client_id,
                                        HandshakeState::Handshaked,
                                    ));
                                    assert(spec_actions_view(actions@) =~= seq![
                                        LudoServerActionView::Send {
                                            client_id,
                                            message:
                                                LudoGameOutcomeHandshakeCallbackPacket::spec_encode(),
                                        },
                                    ]);
                                }
                                actions
                            }
                        }
                    },
                }
            },
        }
    }
}

impl LudoServerCore {
    /// One inbound message from a connection. An unknown sender is never
    /// trusted: it is disconnected. A known session's message is probed
    /// as a handshake request first, then as a profile request; a message
    /// of neither kind is dropped without effect.
    ///
    /// A handshake request is acted on only while the session is still
    /// pending: the right secret marks it `SecretOk` (admission happens
    /// at the timer tick), a wrong secret disconnects at once. A profile
    /// request is acted on only once the session is handshaked: the
    /// declared profile is cached on the session and the persistent
    /// record — created at zero points for an unseen identity — is sent
    /// back.
    pub fn on_message(&mut self, client_id: u64, message: &Vec<u8>) -> (actions: Vec<
        LudoServerAction,
    >)
        requires
            old(self).wf(),
        ensures
            final(self).wf(),
            final(self).configuration == old(self).configuration,
            final(self).secret_key@ == old(self).secret_key@,
            final(self).game == old(self).game,
            // a surviving session only steps along the handshake chain
            forall|id2: u64|
                #[trigger] spec_has_session(old(self).pool(), id2) && spec_has_session(
                    final(self).pool(),
                    id2,
                ) ==> hs_step(
                    spec_session_at(old(self).pool(), id2).handshake,
                    spec_session_at(final(self).pool(), id2).handshake,
                ),
            ({
                let p = old(self).pool();
                let np = final(self).pool();
                let av = spec_actions_view(actions@);
                let st = spec_session_at(p, client_id).handshake;
                let hs_r = LudoGameIncomeHandshakePacket::spec_make(message@);
                let pr_r = LudoGameIncomeProfilePacket::spec_make(message@);
                &&& (!spec_has_session(p, client_id) ==> np == p && final(self).store() == old(self).store() && av == seq![LudoServerActionView::Disconnect { client_id }])
                &&& (spec_has_session(p, client_id) ==> {
                    &&& (hs_r matches Ok(key) ==> {
                        &&& (st == HandshakeState::Pending && key == old(self).secret_key@ ==> np
                            == spec_set_state(p, client_id, HandshakeState::SecretOk) && final(self).store() == old(self).store() && av == Seq::<
                            LudoServerActionView,
                        >::empty())
                        &&& (st == HandshakeState::Pending && key != old(self).secret_key@ ==> np
                            == spec_remove_session(p, client_id) && !spec_has_session(
                            np,
                            client_id,
                        ) && final(self).store() == old(self).store() && av == seq![
                            LudoServerActionView::Disconnect { client_id },
                        ])
                        &&& (st != HandshakeState::Pending ==> np == p && final(self).store()
                            == old(self).store() && av == Seq::<LudoServerActionView>::empty())
                    })
                    &&& (hs_r is Err ==> (pr_r matches Ok(prof) ==> {
                        &&& (st == HandshakeState::Handshaked ==> np == spec_set_profile(
                            p,
                            client_id,
                            prof,
                        ) && final(self).store() == spec_store_after_sync(
                            old(self).store(),
                            prof.unique_id,
                        ) && av == seq![
                            LudoServerActionView::Send {
                                client_id,
                                message: LudoGameOutcomeProfilePacket::spec_encode(
                                    spec_sync_result(old(self).store(), prof.unique_id),
                                ),
                            },
                        ])
                        &&& (st != HandshakeState::Handshaked ==> np == p && final(self).store()
                            == old(self).store() && av == Seq::<LudoServerActionView>::empty())
                    }))
                    &&& (hs_r is Err && pr_r is Err ==> np == p && final(self).store() == old(self).store() && av == Seq::<LudoServerActionView>::empty())
                })
            }),
    {
        let ghost p = old(self).pool();
        let found = self.find_session(client_id);
        let mut actions: Vec<LudoServerAction> = Vec::new();
        let i = match found {
            None => {
                actions.push(LudoServerAction::Disconnect { client_id });
                proof {
                    assert(spec_actions_view(actions@) =~= seq![
                        LudoServerActionView::Disconnect { client_id },
                    ]);
                }
                return actions;
            },
            Some(i) => i,
        };
        proof {
            crate::session::lemma_session_at_unique(p, client_id, i as int);
        }
        match LudoGameIncomeHandshakePacket::make_packet(message) {
            Ok(handshake) => {
                let st = self.sessions[i].handshake;
                match st {
                    HandshakeState::Pending => {
                        if bytes_eq(&handshake.key, &self.secret_key) {
                            let mut session = self.sessions.remove(i);
                            session.handshake = HandshakeState::SecretOk;
                            self.sessions.insert(i, session);
                            proof {
                                crate::session::lemma_set_state_props(
                                    p,
                                    client_id,
                                    HandshakeState::SecretOk,
                                );
                                assert(final(self).pool() =~= spec_set_state(
                                    p,
                                    client_id,
                                    HandshakeState::SecretOk,
                                ));
                                assert(spec_actions_view(actions@) =~= Seq::<
                                    LudoServerActionView,
                                >::empty());
                            }
                            actions
                        } else {
                            proof {
                                lemma_remove_index_props(p, client_id, i as int);
                                crate::session::lemma_remove_keeps_others(p, client_id, i as int);
                            }
                            self.sessions.remove(i);
                            actions.push(LudoServerAction::Disconnect { client_id });
                            proof {
                                assert(final(self).pool() =~= p.remove(i as int));
                                assert(spec_actions_view(actions@) =~= seq![
                                    LudoServerActionView::Disconnect { client_id },
                                ]);
                            }
                            actions
                        }
                    },
                    _ => {
                        proof {
                            assert(final(self).pool() =~= p);
                            assert(spec_actions_view(actions@) =~= Seq::<
                                LudoServerActionView,
                            >::empty());
                        }
                        actions
                    },
                }
            },
            Err(_) => {
                match LudoGameIncomeProfilePacket::make_packet(message) {
                    Ok(profile_packet) => {
                        let st = self.sessions[i].handshake;
                        match st {
                            HandshakeState::Handshaked => {
                                let declared = profile_packet.profile;
                                let uid = crate::bytes::clone_bytes(&declared.unique_id);
                                let mut session = self.sessions.remove(i);
                                session.profile = Some(declared);
                                self.sessions.insert(i, session);
                                proof {
                                    crate::session::lemma_set_profile_props(
                                        p,
                                        client_id,
                                        LudoGameIncomeProfilePacket::spec_make(message@)->Ok_0,
                                    );
                                    assert(self.pool() =~= spec_set_profile(
                                        p,
                                        client_id,
                                        LudoGameIncomeProfilePacket::spec_make(message@)->Ok_0,
                                    ));
                                }
                                let record = self.lookup_or_create(&uid);
                                let reply = LudoGameOutcomeProfilePacket::new(record);
                                let bytes = reply.encode();
                                actions.push(
                                    LudoServerAction::Send { client_id, message: bytes },
                                );
                                proof {
                                    assert(spec_actions_view(actions@) =~= seq![
                                        LudoServerActionView::Send {
                                            client_id,
                                            message: LudoGameOutcomeProfilePacket::spec_encode(
                                                spec_sync_result(
                                                    old(self).store(),
                                                    LudoGameIncomeProfilePacket::spec_make(
                                                        message@,
                                                    )->Ok_0.unique_id,
                                                ),
                                            ),
                                        },
                                    ]);
                                }
                                actions
                            },
                            _ => {
                                proof {
                                    assert(final(self).pool() =~= p);
                                    assert(spec_actions_view(actions@) =~= Seq::<
                                        LudoServerActionView,
                                    >::empty());
                                }
                                actions
                            },
                        }
                    },
                    Err(_) => {
                        proof {
                            assert(final(self).pool() =~= p);
                            assert(spec_actions_view(actions@) =~= Seq::<
                                LudoServerActionView,
                            >::empty());
                        }
                        actions
                    },
                }
            },
        }
    }
}

/// One match-start send per handshaked session, in pool order.
pub open spec fn spec_start_actions(s: Seq<ClientSessionView>) -> Seq<LudoServerActionView>
    decreases s.len(),
{
    if s.len() == 0 {
        Seq::empty()
    } else {
        spec_start_actions(s.drop_last()) + (
        if s.last().handshake == HandshakeState::Handshaked {
            seq![
                LudoServerActionView::Send {
                    client_id: s.last().connection_id,
                    message: LudoGameOutcomeGameStartPacket::spec_encode(),
                },
            ]
        } else {
            Seq::empty()
        })
    }
}

/// The cached profiles of the handshaked sessions, in pool order.
pub open spec fn spec_roster(s: Seq<ClientSessionView>) -> Seq<LudoGameProfileView>
    decreases s.len(),
{
    if s.len() == 0 {
        Seq::empty()
    } else {
        spec_roster(s.drop_last()) + (
        if s.last().handshake == HandshakeState::Handshaked && s.last().profile is Some {
            seq![s.last().profile->Some_0]
        } else {
            Seq::empty()
        })
    }
}

/// One roster send per connected session, in pool order.
pub open spec fn spec_roster_actions(s: Seq<ClientSessionView>) -> Seq<LudoServerActionView> {
    Seq::new(
        s.len(),
        |i: int|
            LudoServerActionView::Send {
                client_id: s[i].connection_id,
                message: LudoGameOutcomePlayerProfilesPacket::spec_encode(spec_roster(s)),
            },
    )
}

impl LudoServerCore {
    /// The quorum check, run once per tick while the match is waiting:
    /// when enough players are handshaked, the match starts — every
    /// handshaked session is told so, and the transition to `InGame` is
    /// final for the process lifetime.
    pub fn try_start_match(&mut self) -> (actions: Vec<LudoServerAction>)
        requires
            old(self).wf(),
        ensures
            final(self).wf(),
            final(self).configuration == old(self).configuration,
            final(self).secret_key@ == old(self).secret_key@,
            final(self).pool() == old(self).pool(),
            final(self).store() == old(self).store(),
            ({
                let started = old(self).game.state == LudoGameState::Waiting
                    && spec_handshaked_count(old(self).pool()) >= old(
                    self,
                ).configuration.min_players_to_start;
                &&& started ==> final(self).game.state == LudoGameState::InGame
                    && spec_actions_view(actions@) == spec_start_actions(old(self).pool())
                &&& !started ==> final(self).game == old(self).game && spec_actions_view(actions@)
                    == Seq::<LudoServerActionView>::empty()
            }),
    {
        let ghost p = self.pool();
        let waiting = match self.game.state {
            LudoGameState::Waiting => true,
            _ => false,
        };
        let mut actions: Vec<LudoServerAction> = Vec::new();
        if !waiting {
            proof {
                assert(spec_actions_view(actions@) =~= Seq::<LudoServerActionView>::empty());
            }
            return actions;
        }
        let cnt = self.count_handshaked();
        if cnt < self.configuration.min_players_to_start as usize {
            proof {
                assert(spec_actions_view(actions@) =~= Seq::<LudoServerActionView>::empty());
            }
            return actions;
        }
        let start_packet = LudoGameOutcomeGameStartPacket::new();
        let n: usize = self.sessions.len();
        let mut k: usize = 0;
        proof {
            assert(p.take(0) =~= Seq::<ClientSessionView>::empty());
            assert(spec_actions_view(actions@) =~= spec_start_actions(p.take(0)));
        }
        while k < n
            invariant
                n == self.sessions@.len(),
                p == self.pool(),
                k <= n,
                spec_actions_view(actions@) == spec_start_actions(p.take(k as int)),
            decreases n - k,
        {
            proof {
                assert(p.take(k + 1).drop_last() =~= p.take(k as int));
                assert(p.take(k + 1).last() == p[k as int]);
            }
            let hs = match self.sessions[k].handshake {
                HandshakeState::Handshaked => true,
                _ => false,
            };
            if hs {
                let message = start_packet.encode();
                let client_id = self.sessions[k].connection_id;
                actions.push(LudoServerAction::Send { client_id, message });
                proof {
                    assert(spec_actions_view(actions@) =~= spec_start_actions(p.take(k + 1)));
                }
            } else {
                proof {
                    assert(spec_actions_view(actions@) =~= spec_start_actions(p.take(k + 1)));
                }
            }
            k += 1;
        }
        self.game = LudoGameObject { state: LudoGameState::InGame };
        proof {
            assert(p.take(n as int) =~= p);
            assert(final(self).pool() =~= p);
        }
        actions
    }

    /// The lobby roster: the declared profiles of every handshaked
    /// session that has one cached.
    pub fn build_roster(&self) -> (r: Vec<LudoGameProfile>)
        ensures
            crate::game::spec_profiles_view(r@) == spec_roster(self.pool()),
    {
        let ghost p = self.pool();
        let n: usize = self.sessions.len();
        let mut out: Vec<LudoGameProfile> = Vec::new();
        let mut k: usize = 0;
        proof {
            assert(p.take(0) =~= Seq::<ClientSessionView>::empty());
            assert(crate::game::spec_profiles_view(out@) =~= spec_roster(p.take(0)));
        }
        while k < n
            invariant
                n == self.sessions@.len(),
                p == self.pool(),
                k <= n,
                crate::game::spec_profiles_view(out@) == spec_roster(p.take(k as int)),
            decreases n - k,
        {
            proof {
                assert(p.take(k + 1).drop_last() =~= p.take(k as int));
                assert(p.take(k + 1).last() == p[k as int]);
            }
            let hs = match self.sessions[k].handshake {
                HandshakeState::Handshaked => true,
                _ => false,
            };
            if hs {
                match &self.sessions[k].profile {
                    Some(profile) => {
                        let copy = profile.clone();
                        out.push(copy);
                        proof {
                            assert(crate::game::spec_profiles_view(out@) =~= spec_roster(
                                p.take(k + 1),
                            ));
                        }
                    },
                    None => {
                        proof {
                            assert(crate::game::spec_profiles_view(out@) =~= spec_roster(
                                p.take(k + 1),
                            ));
                        }
                    },
                }
            } else {
                proof {
                    assert(crate::game::spec_profiles_view(out@) =~= spec_roster(p.take(k + 1)));
                }
            }
            k += 1;
        }
        proof {
            assert(p.take(n as int) =~= p);
        }
        out
    }

    /// The periodic lobby broadcast: while at least one session is
    /// handshaked, every connected session — handshaked or not — is sent
    /// the roster.
    pub fn broadcast_roster(&self) -> (actions: Vec<LudoServerAction>)
        ensures
            spec_handshaked_count(self.pool()) == 0 ==> spec_actions_view(actions@) == Seq::<
                LudoServerActionView,
            >::empty(),
            spec_handshaked_count(self.pool()) > 0 ==> spec_actions_view(actions@)
                == spec_roster_actions(self.pool()),
    {
        let ghost p = self.pool();
        let mut actions: Vec<LudoServerAction> = Vec::new();
        let cnt = self.count_handshaked();
        if cnt == 0 {
            proof {
                assert(spec_actions_view(actions@) =~= Seq::<LudoServerActionView>::empty());
            }
            return actions;
        }
        let roster = self.build_roster();
        let packet = LudoGameOutcomePlayerProfilesPacket::new(roster);
        let n: usize = self.sessions.len();
        let mut k: usize = 0;
        proof {
            assert(spec_actions_view(actions@) =~= spec_roster_actions(p).take(0));
        }
        while k < n
            invariant
                n == self.sessions@.len(),
                p == self.pool(),
                packet@ == spec_roster(p),
                k <= n,
                spec_actions_view(actions@) == spec_roster_actions(p).take(k as int),
            decreases n - k,
        {
            let message = packet.encode();
            let client_id = self.sessions[k].connection_id;
            proof {
                assert(p[k as int] == self.sessions@[k as int]@);
                assert(message@ == LudoGameOutcomePlayerProfilesPacket::spec_encode(
                    spec_roster(p),
                ));
            }
            let action = LudoServerAction::Send { client_id, message };
            proof {
                assert(action@ == (LudoServerActionView::Send {
                    client_id,
                    message: LudoGameOutcomePlayerProfilesPacket::spec_encode(spec_roster(p)),
                }));
                assert(spec_roster_actions(p)[k as int] == action@);
            }
            let ghost oa = actions@;
            actions.push(action);
            proof {
                assert(p.len() == n);
                assert(spec_roster_actions(p).len() == p.len());
                assert(spec_actions_view(oa).len() == oa.len());
                assert(spec_roster_actions(p).take(k as int).len() == k);
                assert(oa.len() == k);
                assert(actions@ == oa.push(action));
                assert(actions@.len() == k + 1);
                assert(spec_actions_view(actions@) =~= spec_roster_actions(p).take(k + 1));
            }
            k += 1;
        }
        proof {
            assert(spec_roster_actions(p).take(n as int) =~= spec_roster_actions(p));
        }
        actions
    }

    /// Graceful shutdown: the lifecycle enters its terminal `Closing`
    /// state; the caller then saves the store a final time and exits.
    pub fn on_shutdown(&mut self)
        requires
            old(self).wf(),
        ensures
            final(self).wf(),
            final(self).configuration == old(self).configuration,
            final(self).secret_key@ == old(self).secret_key@,
            final(self).pool() == old(self).pool(),
            final(self).store() == old(self).store(),
            final(self).game.state == LudoGameState::Closing,
    {
        self.game = LudoGameObject { state: LudoGameState::Closing };
        proof {
            assert(final(self).pool() =~= old(self).pool());
            assert(final(self).store() =~= old(self).store());
        }
    }
}

/// A stored record found by lookup is well formed, in a well-formed
/// store.
pub proof fn lemma_store_lookup_wf(ps: Seq<LudoGameProfileDataView>, uid: Seq<u8>)
    requires
        spec_store_wf(ps),
    ensures
        (match spec_store_lookup(ps, uid) {
            Some(r) => r.wf() && r.unique_id == uid,
            None => true,
        }),
    decreases ps.len(),
{
    if ps.len() > 0 && ps[0].unique_id != uid {
        assert(spec_store_wf(ps.skip(1))) by {
            assert(forall|i: int| 0 <= i < ps.skip(1).len() ==> ps.skip(1)[i] == ps[i + 1]);
        }
        lemma_store_lookup_wf(ps.skip(1), uid);
    }
}

/// When lookup finds nothing, no record carries the identity.
pub proof fn lemma_store_lookup_none(ps: Seq<LudoGameProfileDataView>, uid: Seq<u8>)
    requires
        spec_store_lookup(ps, uid) is None,
    ensures
        forall|i: int| 0 <= i < ps.len() ==> (#[trigger] ps[i]).unique_id != uid,
    decreases ps.len(),
{
    if ps.len() > 0 {
        lemma_store_lookup_none(ps.skip(1), uid);
        assert forall|i: int| 0 <= i < ps.len() implies (#[trigger] ps[i]).unique_id != uid by {
            if i > 0 {
                assert(ps.skip(1)[i - 1] == ps[i]);
            }
        }
    }
}

/// A profile sync leaves the store well formed.
pub proof fn lemma_store_after_sync_wf(ps: Seq<LudoGameProfileDataView>, uid: Seq<u8>)
    requires
        spec_store_wf(ps),
        uid.len() == 16,
    ensures
        spec_store_wf(spec_store_after_sync(ps, uid)),
{
    match spec_store_lookup(ps, uid) {
        Some(r) => {},
        None => {
            lemma_store_lookup_none(ps, uid);
            let np = spec_store_after_sync(ps, uid);
            assert forall|i: int| 0 <= i < np.len() implies (#[trigger] np[i]).wf() by {
                if i < ps.len() {
                    assert(np[i] == ps[i]);
                }
            }
            assert forall|i: int, j: int|
                0 <= i < j < np.len() implies np[i].unique_id != np[j].unique_id by {
                assert(np[i] == ps[i]);
                if j < ps.len() {
                    assert(np[j] == ps[j]);
                }
            }
        },
    }
}

impl LudoServerCore {
    /// Looks an identity up in the store; an unseen identity gets a fresh
    /// zero-point record persisted into the store. Returns a copy of the
    /// record either way.
    pub fn lookup_or_create(&mut self, unique_id: &Vec<u8>) -> (r: LudoGameProfileData)
        requires
            old(self).wf(),
            unique_id@.len() == 16,
        ensures
            final(self).wf(),
            final(self).configuration == old(self).configuration,
            final(self).secret_key@ == old(self).secret_key@,
            final(self).game == old(self).game,
            final(self).pool() == old(self).pool(),
            r@ == spec_sync_result(old(self).store(), unique_id@),
            r.wf(),
            final(self).store() == spec_store_after_sync(old(self).store(), unique_id@),
    {
        let ghost ps = self.store();
        let n: usize = self.profiles.len();
        let mut k: usize = 0;
        proof {
            assert(ps.skip(0) =~= ps);
        }
        while k < n
            invariant
                self == old(self),
                old(self).wf(),
                unique_id@.len() == 16,
                n == self.profiles@.len(),
                ps == self.store(),
                k <= n,
                spec_store_lookup(ps, unique_id@) == spec_store_lookup(
                    ps.skip(k as int),
                    unique_id@,
                ),
                forall|j: int| 0 <= j < k ==> (#[trigger] ps[j]).unique_id != unique_id@,
            decreases n - k,
        {
            proof {
                assert(ps.skip(k as int)[0] == ps[k as int]);
                assert(ps.skip(k as int).skip(1) =~= ps.skip(k + 1));
            }
            if bytes_eq(&self.profiles[k].unique_id, unique_id) {
                let r = self.profiles[k].clone();
                proof {
                    lemma_store_lookup_wf(ps, unique_id@);
                    assert(final(self).pool() =~= old(self).pool());
                }
                return r;
            }
            k += 1;
        }
        proof {
            assert(ps.skip(n as int).len() == 0);
            assert(spec_store_lookup(ps, unique_id@) is None);
            lemma_store_after_sync_wf(ps, unique_id@);
        }
        let fresh = LudoGameProfileData::new(crate::bytes::clone_bytes(unique_id), 0);
        let copy = fresh.clone();
        self.profiles.push(fresh);
        proof {
            assert(final(self).store() =~= ps.push(
                LudoGameProfileDataView { unique_id: unique_id@, points: 0 },
            ));
            assert(final(self).pool() =~= old(self).pool());
        }
        copy
    }
}

/// Looking up an identity after appending some other record finds what
/// it found before; appending the identity's own record makes it found.
proof fn lemma_store_lookup_push(
    ps: Seq<LudoGameProfileDataView>,
    x: LudoGameProfileDataView,
    uid: Seq<u8>,
)
    ensures
        spec_store_lookup(ps, uid) is Some ==> spec_store_lookup(ps.push(x), uid)
            == spec_store_lookup(ps, uid),
        spec_store_lookup(ps, uid) is None && x.unique_id == uid ==> spec_store_lookup(
            ps.push(x),
            uid,
        ) == Some(x),
    decreases ps.len(),
{
    if ps.len() == 0 {
        assert(ps.push(x)[0] == x);
        assert(ps.push(x).skip(1) =~= Seq::<LudoGameProfileDataView>::empty());
    } else {
        assert(ps.push(x)[0] == ps[0]);
        assert(ps.push(x).skip(1) =~= ps.skip(1).push(x));
        lemma_store_lookup_push(ps.skip(1), x, uid);
    }
}

/// A found record carries the identity it was looked up by.
proof fn lemma_store_lookup_uid(ps: Seq<LudoGameProfileDataView>, uid: Seq<u8>)
    ensures
        (match spec_store_lookup(ps, uid) {
            Some(r) => r.unique_id == uid,
            None => true,
        }),
    decreases ps.len(),
{
    if ps.len() > 0 && ps[0].unique_id != uid {
        lemma_store_lookup_uid(ps.skip(1), uid);
    }
}

/// Profile sync is idempotent: after a first sync creates or finds the
/// identity's record, a second sync for the same identity returns the
/// very same record — same identity, same points — and leaves the store
/// as it was.
pub proof fn lemma_profile_sync_idempotent(ps: Seq<LudoGameProfileDataView>, uid: Seq<u8>)
    ensures
        spec_sync_result(ps, uid).unique_id == uid,
        spec_sync_result(spec_store_after_sync(ps, uid), uid) == spec_sync_result(ps, uid),
        spec_store_after_sync(spec_store_after_sync(ps, uid), uid) == spec_store_after_sync(
            ps,
            uid,
        ),
{
    lemma_store_lookup_uid(ps, uid);
    match spec_store_lookup(ps, uid) {
        Some(r) => {},
        None => {
            let fresh = LudoGameProfileDataView { unique_id: uid, points: 0 };
            lemma_store_lookup_push(ps, fresh, uid);
        },
    }
}

/// Removing an id that owns no session changes nothing.
proof fn lemma_remove_absent(s: Seq<ClientSessionView>, id: u64)
    requires
        !spec_has_session(s, id),
    ensures
        spec_remove_session(s, id) == s,
    decreases s.len(),
{
    if s.len() > 0 {
        assert(s[0].connection_id != id);
        assert(forall|i: int|
            0 <= i < s.skip(1).len() ==> s.skip(1)[i] == s[i + 1]);
        lemma_remove_absent(s.skip(1), id);
        assert(seq![s[0]] + s.skip(1) =~= s);
    }
}

} // verus!
