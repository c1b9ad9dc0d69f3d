//! Per-connection session state and the pool that owns it.
//!
//! A session walks the handshake chain `Pending` → `SecretOk` →
//! `Handshaked` and is destroyed on disconnection; the pool holds at most
//! one session per connection id.

use vstd::prelude::*;
use crate::game::LudoGameProfile;
use crate::game::LudoGameProfileView;

verus! {

/// Handshake progress of one connection.
#[derive(Clone, Copy, PartialEq, Eq, Structural, Debug)]
pub enum HandshakeState {
    /// Connected; no valid handshake request seen yet.
    Pending,
    /// A request with the right secret arrived; awaiting the timer tick.
    SecretOk,
    /// Admitted into the match.
    Handshaked,
}

/// The one-step transition relation of a surviving session's handshake
/// state: stay, or advance along the chain.
pub open spec fn hs_step(a: HandshakeState, b: HandshakeState) -> bool {
    a == b || (a == HandshakeState::Pending && b == HandshakeState::SecretOk) || (a
        == HandshakeState::SecretOk && b == HandshakeState::Handshaked)
}

/// A session only reaches `Handshaked` from `SecretOk` (or by staying
/// there): the chain cannot be skipped.
pub proof fn lemma_handshaked_needs_secret_ok(a: HandshakeState, b: HandshakeState)
    requires
        hs_step(a, b),
        b == HandshakeState::Handshaked,
    ensures
        a == HandshakeState::SecretOk || a == HandshakeState::Handshaked,
{
}

/// Server-side state of one live connection.
#[derive(Debug)]
pub struct ClientSession {
    /// Transport-assigned id, unique while connected.
    pub connection_id: u64,
    /// Where the connection stands in the handshake.
    pub handshake: HandshakeState,
    /// The profile the client declared, once profile sync cached it.
    pub profile: Option<LudoGameProfile>,
}

/// Mathematical model of a session.
pub struct ClientSessionView {
    pub connection_id: u64,
    pub handshake: HandshakeState,
    pub profile: Option<LudoGameProfileView>,
}

impl View for ClientSession {
    type V = ClientSessionView;

    open spec fn view(&self) -> ClientSessionView {
        ClientSessionView {
            connection_id: self.connection_id,
            handshake: self.handshake,
            profile: match self.profile {
                Some(p) => Some(p@),
                None => None,
            },
        }
    }
}

/// The models of a vector of sessions.
pub open spec fn spec_sessions_view(l: Seq<ClientSession>) -> Seq<ClientSessionView> {
    Seq::new(l.len(), |i: int| l[i]@)
}

/// No two sessions share a connection id.
pub open spec fn spec_ids_unique(s: Seq<ClientSessionView>) -> bool {
    forall|i: int, j: int|
        0 <= i < j < s.len() ==> s[i].connection_id != s[j].connection_id
}

/// Some session belongs to this connection id.
pub open spec fn spec_has_session(s: Seq<ClientSessionView>, id: u64) -> bool {
    exists|i: int| 0 <= i < s.len() && s[i].connection_id == id
}

/// The session of this connection id (meaningful when one exists and ids
/// are unique).
pub open spec fn spec_session_at(s: Seq<ClientSessionView>, id: u64) -> ClientSessionView {
    s[choose|i: int| 0 <= i < s.len() && s[i].connection_id == id]
}

/// The pool after setting the handshake state of one session.
pub open spec fn spec_set_state(
    s: Seq<ClientSessionView>,
    id: u64,
    hs: HandshakeState,
) -> Seq<ClientSessionView> {
    Seq::new(
        s.len(),
        |i: int|
            if s[i].connection_id == id {
                ClientSessionView { connection_id: s[i].connection_id, handshake: hs, profile: s[i].profile }
            } else {
                s[i]
            },
    )
}

/// The pool after caching a declared profile on one session.
pub open spec fn spec_set_profile(
    s: Seq<ClientSessionView>,
    id: u64,
    p: LudoGameProfileView,
) -> Seq<ClientSessionView> {
    Seq::new(
        s.len(),
        |i: int|
            if s[i].connection_id == id {
                ClientSessionView {
                    connection_id: s[i].connection_id,
                    handshake: s[i].handshake,
                    profile: Some(p),
                }
            } else {
                s[i]
            },
    )
}

/// The pool after destroying the session of one connection id.
pub open spec fn spec_remove_session(s: Seq<ClientSessionView>, id: u64) -> Seq<ClientSessionView>
    decreases s.len(),
{
    if s.len() == 0 {
        s
    } else if s[0].connection_id == id {
        s.skip(1)
    } else {
        seq![s[0]] + spec_remove_session(s.skip(1), id)
    }
}

/// How many sessions are fully handshaked.
pub open spec fn spec_handshaked_count(s: Seq<ClientSessionView>) -> nat
    decreases s.len(),
{
    if s.len() == 0 {
        0
    } else {
        spec_handshaked_count(s.drop_last()) + (
        if s.last().handshake == HandshakeState::Handshaked {
            1nat
        } else {
            0nat
        })
    }
}

/// Removing a session at its index is removing it by id, when ids are
/// unique and index `i` is the id's first occurrence.
pub proof fn lemma_remove_at_index(s: Seq<ClientSessionView>, id: u64, i: int)
    requires
        0 <= i < s.len(),
        s[i].connection_id == id,
        forall|j: int| 0 <= j < i ==> s[j].connection_id != id,
    ensures
        spec_remove_session(s, id) == s.remove(i),
    decreases s.len(),
{
    if i == 0 {
        assert(s.remove(0) =~= s.skip(1));
    } else {
        lemma_remove_at_index(s.skip(1), id, i - 1);
        assert(s.skip(1)[i - 1].connection_id == id);
        assert(spec_remove_session(s, id) == seq![s[0]] + spec_remove_session(s.skip(1), id));
        assert(seq![s[0]] + s.skip(1).remove(i - 1) =~= s.remove(i));
    }
}

/// With unique ids, the session of an id is the one at any index that
/// carries the id.
pub proof fn lemma_session_at_unique(s: Seq<ClientSessionView>, id: u64, k: int)
    requires
        spec_ids_unique(s),
        0 <= k < s.len(),
        s[k].connection_id == id,
    ensures
        spec_session_at(s, id) == s[k],
        spec_has_session(s, id),
{
    assert(spec_has_session(s, id));
    let j = choose|j: int| 0 <= j < s.len() && s[j].connection_id == id;
    if j != k {
        if j < k {
            assert(s[j].connection_id != s[k].connection_id);
        } else {
            assert(s[k].connection_id != s[j].connection_id);
        }
    }
}

/// Setting one session's state keeps ids, uniqueness and presence, moves
/// that session to the new state and leaves every other session alone.
pub proof fn lemma_set_state_props(s: Seq<ClientSessionView>, id: u64, hs: HandshakeState)
    requires
        spec_ids_unique(s),
    ensures
        spec_set_state(s, id, hs).len() == s.len(),
        forall|i: int|
            0 <= i < s.len() ==> (#[trigger] spec_set_state(s, id, hs)[i]).connection_id
                == s[i].connection_id,
        spec_ids_unique(spec_set_state(s, id, hs)),
        forall|id2: u64|
            spec_has_session(s, id2) == #[trigger] spec_has_session(spec_set_state(s, id, hs), id2),
        forall|id2: u64|
            spec_has_session(s, id2) && id2 != id ==> #[trigger] spec_session_at(
                spec_set_state(s, id, hs),
                id2,
            ) == spec_session_at(s, id2),
        spec_has_session(s, id) ==> spec_session_at(spec_set_state(s, id, hs), id)
            == (ClientSessionView {
            connection_id: id,
            handshake: hs,
            profile: spec_session_at(s, id).profile,
        }),
{
    let ns = spec_set_state(s, id, hs);
    assert forall|id2: u64|
        spec_has_session(s, id2) == #[trigger] spec_has_session(ns, id2) by {
        if spec_has_session(s, id2) {
            let k = choose|k: int| 0 <= k < s.len() && s[k].connection_id == id2;
            assert(ns[k].connection_id == id2);
        }
        if spec_has_session(ns, id2) {
            let k = choose|k: int| 0 <= k < ns.len() && ns[k].connection_id == id2;
            assert(s[k].connection_id == id2);
        }
    }
    assert forall|id2: u64|
        spec_has_session(s, id2) && id2 != id implies #[trigger] spec_session_at(ns, id2)
        == spec_session_at(s, id2) by {
        let k = choose|k: int| 0 <= k < s.len() && s[k].connection_id == id2;
        lemma_session_at_unique(s, id2, k);
        lemma_session_at_unique(ns, id2, k);
    }
    if spec_has_session(s, id) {
        let k = choose|k: int| 0 <= k < s.len() && s[k].connection_id == id;
        lemma_session_at_unique(s, id, k);
        lemma_session_at_unique(ns, id, k);
    }
}

/// Caching a profile on one session keeps ids, uniqueness, presence and
/// every handshake state, and leaves every other session alone.
pub proof fn lemma_set_profile_props(s: Seq<ClientSessionView>, id: u64, p: LudoGameProfileView)
    requires
        spec_ids_unique(s),
    ensures
        spec_set_profile(s, id, p).len() == s.len(),
        forall|i: int|
            0 <= i < s.len() ==> (#[trigger] spec_set_profile(s, id, p)[i]).connection_id
                == s[i].connection_id && spec_set_profile(s, id, p)[i].handshake
                == s[i].handshake,
        spec_ids_unique(spec_set_profile(s, id, p)),
        forall|id2: u64|
            spec_has_session(s, id2) == #[trigger] spec_has_session(spec_set_profile(s, id, p), id2),
        forall|id2: u64|
            spec_has_session(s, id2) && id2 != id ==> #[trigger] spec_session_at(
                spec_set_profile(s, id, p),
                id2,
            ) == spec_session_at(s, id2),
        spec_has_session(s, id) ==> spec_session_at(spec_set_profile(s, id, p), id)
            == (ClientSessionView {
            connection_id: id,
            handshake: spec_session_at(s, id).handshake,
            profile: Some(p),
        }),
{
    let ns = spec_set_profile(s, id, p);
    assert forall|id2: u64|
        spec_has_session(s, id2) == #[trigger] spec_has_session(ns, id2) by {
        if spec_has_session(s, id2) {
            let k = choose|k: int| 0 <= k < s.len() && s[k].connection_id == id2;
            assert(ns[k].connection_id == id2);
        }
        if spec_has_session(ns, id2) {
            let k = choose|k: int| 0 <= k < ns.len() && ns[k].connection_id == id2;
            assert(s[k].connection_id == id2);
        }
    }
    assert forall|id2: u64|
        spec_has_session(s, id2) && id2 != id implies #[trigger] spec_session_at(ns, id2)
        == spec_session_at(s, id2) by {
        let k = choose|k: int| 0 <= k < s.len() && s[k].connection_id == id2;
        lemma_session_at_unique(s, id2, k);
        lemma_session_at_unique(ns, id2, k);
    }
    if spec_has_session(s, id) {
        let k = choose|k: int| 0 <= k < s.len() && s[k].connection_id == id;
        lemma_session_at_unique(s, id, k);
        lemma_session_at_unique(ns, id, k);
    }
}

/// Removing the first session of an id from a unique-id pool leaves a
/// unique-id pool without that id, and equals removal at that index.
pub proof fn lemma_remove_index_props(s: Seq<ClientSessionView>, id: u64, i: int)
    requires
        spec_ids_unique(s),
        0 <= i < s.len(),
        s[i].connection_id == id,
        forall|j: int| 0 <= j < i ==> s[j].connection_id != id,
    ensures
        spec_remove_session(s, id) == s.remove(i),
        !spec_has_session(s.remove(i), id),
        spec_ids_unique(s.remove(i)),
{
    lemma_remove_at_index(s, id, i);
    let r = s.remove(i);
    assert(r =~= s.subrange(0, i) + s.subrange(i + 1, s.len() as int));
    assert forall|k: int| 0 <= k < r.len() implies r[k].connection_id != id by {
        if k < i {
            assert(r[k] == s[k]);
        } else {
            assert(r[k] == s[k + 1]);
        }
    }
    assert forall|k: int, l: int|
        0 <= k < l < r.len() implies r[k].connection_id != r[l].connection_id by {
        if k < i {
            assert(r[k] == s[k]);
        } else {
            assert(r[k] == s[k + 1]);
        }
        if l < i {
            assert(r[l] == s[l]);
        } else {
            assert(r[l] == s[l + 1]);
        }
    }
}

/// Removing one session keeps every other session, with its value.
pub proof fn lemma_remove_keeps_others(s: Seq<ClientSessionView>, id: u64, i: int)
    requires
        spec_ids_unique(s),
        0 <= i < s.len(),
        s[i].connection_id == id,
    ensures
        forall|id2: u64|
            spec_has_session(s, id2) && id2 != id ==> #[trigger] spec_has_session(
                s.remove(i),
                id2,
            ) && spec_session_at(s.remove(i), id2) == spec_session_at(s, id2),
{
    let r = s.remove(i);
    assert(r =~= s.subrange(0, i) + s.subrange(i + 1, s.len() as int));
    assert forall|k: int| 0 <= k < r.len() implies r[k] == (if k < i {
        s[k]
    } else {
        s[k + 1]
    }) by {}
    assert forall|k: int, l: int|
        0 <= k < l < r.len() implies r[k].connection_id != r[l].connection_id by {}
    assert forall|id2: u64|
        spec_has_session(s, id2) && id2 != id implies #[trigger] spec_has_session(r, id2)
        && spec_session_at(r, id2) == spec_session_at(s, id2) by {
        let k = choose|k: int| 0 <= k < s.len() && s[k].connection_id == id2;
        lemma_session_at_unique(s, id2, k);
        if k < i {
            assert(r[k] == s[k]);
            lemma_session_at_unique(r, id2, k);
        } else {
            assert(k > i);
            assert(r[k - 1] == s[k]);
            lemma_session_at_unique(r, id2, k - 1);
        }
    }
}

} // verus!
