//! Per-client UDP sessions: the demultiplexing state a UDP listener keeps,
//! with idle eviction, and the per-packet resolve cache. Sockets are the
//! caller's: a session names its upstream socket by an opaque id, and the
//! decisions here tell the caller when to connect a fresh one.

use vstd::prelude::*;
use crate::endpoint::{Endpoint, EndpointView};

verus! {

/// A session is evicted when idle longer than this (seconds).
pub const UDP_IDLE_TTL_SECS: u64 = 60;

/// The eviction sweep cadence (seconds).
pub const UDP_GC_PERIOD_SECS: u64 = 30;

/// How long a resolved target is reused before re-resolving (seconds).
pub const RESOLVE_CACHE_TTL_SECS: u64 = 300;

/// One client's session: its upstream socket (by caller-chosen id), the
/// target that socket is connected to, and when the client was last seen.
pub struct UdpSession {
    pub client: Endpoint,
    pub upstream: Option<u64>,
    pub target: Option<Endpoint>,
    pub last_seen: u64,
}

/// Mathematical image of a [`UdpSession`].
pub ghost struct UdpSessionView {
    pub client: EndpointView,
    pub upstream: Option<u64>,
    pub target: Option<EndpointView>,
    pub last_seen: u64,
}

impl View for UdpSession {
    type V = UdpSessionView;

    open spec fn view(&self) -> UdpSessionView {
        UdpSessionView {
            client: self.client@,
            upstream: self.upstream,
            target: match self.target {
                Some(ref t) => Some(t@),
                None => None,
            },
            last_seen: self.last_seen,
        }
    }
}

impl DeepView for UdpSession {
    type V = UdpSessionView;

    open spec fn deep_view(&self) -> UdpSessionView {
        self@
    }
}

/// What the listener must do with an inbound datagram.
pub enum DatagramAction {
    /// The client's session is connected to the current target: send the
    /// payload on this upstream socket.
    Send { upstream_id: u64 },
    /// No usable upstream: connect a fresh socket to the target, start its
    /// reverse-path reader, then attach it to the session.
    ConnectUpstream,
}

/// The sessions of one UDP listener, keyed by client endpoint.
pub struct SessionTable {
    pub sessions: Vec<UdpSession>,
}

/// No two sessions share a client.
pub open spec fn spec_clients_unique(ss: Seq<UdpSessionView>) -> bool {
    forall|i: int, j: int| 0 <= i < j < ss.len() ==> (#[trigger] ss[i]).client != (
    #[trigger] ss[j]).client
}

pub open spec fn spec_has_session(ss: Seq<UdpSessionView>, c: EndpointView) -> bool {
    exists|i: int| 0 <= i < ss.len() && (#[trigger] ss[i]).client == c
}

/// The index of the session for client `c`; meaningful only when one
/// exists.
pub open spec fn spec_session_index(ss: Seq<UdpSessionView>, c: EndpointView) -> int
    decreases ss.len(),
{
    if ss.len() == 0 {
        0
    } else if ss[0].client == c {
        0
    } else {
        1 + spec_session_index(ss.drop_first(), c)
    }
}

proof fn lemma_session_index_at(ss: Seq<UdpSessionView>, c: EndpointView, i: int)
    requires
        0 <= i < ss.len(),
        ss[i].client == c,
        forall|j: int| 0 <= j < i ==> (#[trigger] ss[j]).client != c,
    ensures
        spec_session_index(ss, c) == i,
    decreases ss.len(),
{
    if i > 0 {
        let rest = ss.drop_first();
        assert(rest[i - 1] == ss[i]);
        assert(forall|j: int| 0 <= j < i - 1 ==> #[trigger] rest[j] == ss[j + 1]);
        lemma_session_index_at(rest, c, i - 1);
    }
}

/// A session idle longer than the TTL at time `now`.
pub open spec fn spec_session_idle(s: UdpSessionView, now: u64) -> bool {
    now >= s.last_seen && now - s.last_seen > UDP_IDLE_TTL_SECS
}

/// The sessions that survive an eviction sweep at time `now`, in order.
pub open spec fn spec_live_sessions(ss: Seq<UdpSessionView>, now: u64) -> Seq<UdpSessionView>
    decreases ss.len(),
{
    if ss.len() == 0 {
        Seq::empty()
    } else {
        let rest = spec_live_sessions(ss.drop_last(), now);
        if spec_session_idle(ss.last(), now) {
            rest
        } else {
            rest.push(ss.last())
        }
    }
}

impl SessionTable {
    pub open spec fn wf(self) -> bool {
        spec_clients_unique(self.sessions.deep_view())
    }

    pub fn new() -> (r: SessionTable)
        ensures
            r.sessions.deep_view() == Seq::<UdpSessionView>::empty(),
            r.sessions.len() == 0,
            r.wf(),
    {
        let r = SessionTable { sessions: Vec::new() };
        proof {
            assert(r.sessions.deep_view() =~= Seq::<UdpSessionView>::empty());
        }
        r
    }

    /// Finds the session for a client.
    pub fn find(&self, client: &Endpoint) -> (r: Option<usize>)
        ensures
            match r {
                Some(i) => i < self.sessions.len() && self.sessions.deep_view()[i as int].client
                    == client@ && i == spec_session_index(self.sessions.deep_view(), client@),
                None => !spec_has_session(self.sessions.deep_view(), client@),
            },
    {
        let ghost ss = self.sessions.deep_view();
        let mut i: usize = 0;
        while i < self.sessions.len()
            invariant
                0 <= i <= self.sessions.len(),
                ss == self.sessions.deep_view(),
                forall|j: int| 0 <= j < i ==> (#[trigger] ss[j]).client != client@,
            decreases self.sessions.len() - i,
        {
            if self.sessions[i].client.same_as(client) {
                proof {
                    assert(ss[i as int].client == client@);
                    lemma_session_index_at(ss, client@, i as int);
                }
                return Some(i);
            }
            proof {
                assert(ss[i as int].client != client@);
            }
            i = i + 1;
        }
        proof {
            if spec_has_session(ss, client@) {
                let w = choose|w: int| 0 <= w < ss.len() && (#[trigger] ss[w]).client == client@;
            }
        }
        None
    }

    /// Handles one inbound datagram from `client` aimed at `target`: the
    /// client has exactly one session afterwards, marked seen now, and the
    /// returned action says whether its upstream can carry the payload or
    /// must first be connected.
    pub fn process_datagram(&mut self, client: &Endpoint, target: &Endpoint, now: u64) -> (a:
        DatagramAction)
        requires
            old(self).wf(),
        ensures
            final(self).wf(),
            spec_has_session(final(self).sessions.deep_view(), client@),
            ({
                let ss = final(self).sessions.deep_view();
                let s = ss[spec_session_index(ss, client@)];
                &&& s.last_seen == now
                &&& match a {
                    DatagramAction::Send { upstream_id } => s.upstream == Some(upstream_id)
                        && s.target == Some(target@),
                    DatagramAction::ConnectUpstream => s.upstream is None || s.target != Some(
                        target@,
                    ),
                }
            }),
            forall|j: int|
                0 <= j < final(self).sessions.deep_view().len() && (#[trigger] final(self).sessions.deep_view()[j]).client != client@ ==> exists|j2: int|
                    0 <= j2 < old(self).sessions.deep_view().len() && old(self).sessions.deep_view()[j2] == final(self).sessions.deep_view()[j],
    {
        let ghost ss0 = self.sessions.deep_view();
        match self.find(client) {
            Some(i) => {
                let ghost iv = i as int;
                let usable: bool = match (&self.sessions[i].upstream, &self.sessions[i].target) {
                    (Some(_), Some(t)) => t.same_as(target),
                    _ => false,
                };
                let upstream_id: u64 = match &self.sessions[i].upstream {
                    Some(id) => *id,
                    None => 0,
                };
                let mut s = self.sessions.remove(i);
                s.last_seen = now;
                let ghost sv = s@;
                self.sessions.insert(i, s);
                proof {
                    assert(self.sessions.deep_view() =~= ss0.update(iv, sv));
                    assert forall|a2: int, b: int|
                        0 <= a2 < b < self.sessions.deep_view().len() implies (
                    #[trigger] self.sessions.deep_view()[a2]).client != (
                    #[trigger] self.sessions.deep_view()[b]).client by {
                        assert(ss0[a2].client != ss0[b].client);
                    }
                    assert(self.sessions.deep_view()[iv].client == client@);
                    lemma_session_index_at(self.sessions.deep_view(), client@, iv);
                    assert(spec_has_session(self.sessions.deep_view(), client@));
                }
                if usable {
                    DatagramAction::Send { upstream_id }
                } else {
                    DatagramAction::ConnectUpstream
                }
            },
            None => {
                let fresh = UdpSession {
                    client: client.clone_ep(),
                    upstream: None,
                    target: None,
                    last_seen: now,
                };
                let ghost fv = fresh@;
                self.sessions.push(fresh);
                proof {
                    assert(self.sessions.deep_view() =~= ss0.push(fv));
                    assert forall|a2: int, b: int|
                        0 <= a2 < b < self.sessions.deep_view().len() implies (
                    #[trigger] self.sessions.deep_view()[a2]).client != (
                    #[trigger] self.sessions.deep_view()[b]).client by {
                        if b < ss0.len() {
                            assert(ss0[a2].client != ss0[b].client);
                        } else {
                            assert(self.sessions.deep_view()[b] == fv);
                            assert(self.sessions.deep_view()[a2] == ss0[a2]);
                        }
                    }
                    assert(self.sessions.deep_view()[ss0.len() as int].client == client@);
                    lemma_session_index_at(
                        self.sessions.deep_view(),
                        client@,
                        ss0.len() as int,
                    );
                    assert(spec_has_session(self.sessions.deep_view(), client@));
                }
                DatagramAction::ConnectUpstream
            },
        }
    }

    /// Attaches a freshly connected upstream socket to the client's
    /// session; the caller has `connect`-associated it to `target`.
    pub fn attach_upstream(&mut self, client: &Endpoint, upstream_id: u64, target: &Endpoint, now: u64)
        requires
            old(self).wf(),
            spec_has_session(old(self).sessions.deep_view(), client@),
        ensures
            final(self).wf(),
            spec_has_session(final(self).sessions.deep_view(), client@),
            ({
                let ss = final(self).sessions.deep_view();
                let s = ss[spec_session_index(ss, client@)];
                s.upstream == Some(upstream_id) && s.target == Some(target@) && s.last_seen == now
            }),
    {
        let ghost ss0 = self.sessions.deep_view();
        match self.find(client) {
            Some(i) => {
                let ghost iv = i as int;
                let mut s = self.sessions.remove(i);
                s.upstream = Some(upstream_id);
                s.target = Some(target.clone_ep());
                s.last_seen = now;
                let ghost sv = s@;
                self.sessions.insert(i, s);
                proof {
                    assert(self.sessions.deep_view() =~= ss0.update(iv, sv));
                    assert forall|a2: int, b: int|
                        0 <= a2 < b < self.sessions.deep_view().len() implies (
                    #[trigger] self.sessions.deep_view()[a2]).client != (
                    #[trigger] self.sessions.deep_view()[b]).client by {
                        assert(ss0[a2].client != ss0[b].client);
                    }
                    assert(self.sessions.deep_view()[iv].client == client@);
                    lemma_session_index_at(self.sessions.deep_view(), client@, iv);
                }
            },
            None => {},
        }
    }

    /// The eviction sweep: drops every session idle past the TTL. Dropping
    /// a session releases its upstream socket, which ends the reverse-path
    /// reader.
    pub fn gc(&mut self, now: u64)
        requires
            old(self).wf(),
        ensures
            final(self).sessions.deep_view() == spec_live_sessions(
                old(self).sessions.deep_view(),
                now,
            ),
            final(self).wf(),
    {
        let ghost ss0 = self.sessions.deep_view();
        let mut kept: Vec<UdpSession> = Vec::new();
        proof {
            assert(ss0.take(0) =~= Seq::<UdpSessionView>::empty());
            assert(kept.deep_view() =~= spec_live_sessions(ss0.take(0), now));
        }
        let n = self.sessions.len();
        let mut i: usize = 0;
        while i < n
            invariant
                0 <= i <= n == self.sessions.len(),
                ss0 == self.sessions.deep_view(),
                kept.deep_view() == spec_live_sessions(ss0.take(i as int), now),
            decreases n - i,
        {
            let ghost pre = kept.deep_view();
            let s = &self.sessions[i];
            let idle = now >= s.last_seen && now - s.last_seen > UDP_IDLE_TTL_SECS;
            if !idle {
                let copy = UdpSession {
                    client: s.client.clone_ep(),
                    upstream: s.upstream,
                    target: match &s.target {
                        Some(t) => Some(t.clone_ep()),
                        None => None,
                    },
                    last_seen: s.last_seen,
                };
                proof {
                    assert(copy@ == ss0[i as int]);
                }
                kept.push(copy);
                proof {
                    assert(kept.deep_view() =~= pre.push(ss0[i as int]));
                }
            }
            proof {
                assert(ss0.take(i as int + 1).drop_last() =~= ss0.take(i as int));
                assert(ss0.take(i as int + 1).last() == ss0[i as int]);
            }
            i = i + 1;
        }
        proof {
            assert(ss0.take(n as int) =~= ss0);
        }
        self.sessions = kept;
        proof {
            lemma_live_sessions_unique(ss0, now);
        }
    }

    pub fn len(&self) -> (r: usize)
        ensures
            r == self.sessions.len(),
    {
        self.sessions.len()
    }
}

/// Eviction keeps client uniqueness: the survivors are a subsequence.
proof fn lemma_live_sessions_unique(ss: Seq<UdpSessionView>, now: u64)
    requires
        spec_clients_unique(ss),
    ensures
        spec_clients_unique(spec_live_sessions(ss, now)),
        forall|j: int|
            0 <= j < spec_live_sessions(ss, now).len() ==> ss.contains(
                #[trigger] spec_live_sessions(ss, now)[j],
            ),
    decreases ss.len(),
{
    if ss.len() > 0 {
        let head = ss.drop_last();
        assert(spec_clients_unique(head)) by {
            assert(forall|i: int, j: int| 0 <= i < j < head.len() ==> #[trigger] head[i] == ss[i]
                && #[trigger] head[j] == ss[j]);
        }
        lemma_live_sessions_unique(head, now);
        let rest = spec_live_sessions(head, now);
        assert(forall|j: int| 0 <= j < rest.len() ==> head.contains(#[trigger] rest[j]) ==> ss.contains(
            rest[j],
        )) by {
            assert forall|j: int| 0 <= j < rest.len() && head.contains(#[trigger] rest[j]) implies ss.contains(
                rest[j],
            ) by {
                let w = choose|w: int| 0 <= w < head.len() && head[w] == rest[j];
                assert(ss[w] == rest[j]);
            }
        }
        if !spec_session_idle(ss.last(), now) {
            let nv = rest.push(ss.last());
            assert forall|a: int, b: int| 0 <= a < b < nv.len() implies (
            #[trigger] nv[a]).client != (#[trigger] nv[b]).client by {
                if b < rest.len() {
                    assert(nv[a] == rest[a] && nv[b] == rest[b]);
                } else {
                    assert(nv[b] == ss.last());
                    assert(nv[a] == rest[a]);
                    assert(head.contains(rest[a]));
                    let w = choose|w: int| 0 <= w < head.len() && head[w] == rest[a];
                    assert(ss[w] == rest[a]);
                    assert(ss[w].client != ss[ss.len() - 1].client);
                }
            }
            assert forall|j: int| 0 <= j < nv.len() implies ss.contains(#[trigger] nv[j]) by {
                if j < rest.len() {
                    assert(head.contains(rest[j]));
                    let w = choose|w: int| 0 <= w < head.len() && head[w] == rest[j];
                    assert(ss[w] == nv[j]);
                } else {
                    assert(nv[j] == ss[ss.len() - 1]);
                }
            }
        } else {
            assert forall|j: int| 0 <= j < rest.len() implies ss.contains(#[trigger] rest[j]) by {
                assert(head.contains(rest[j]));
                let w = choose|w: int| 0 <= w < head.len() && head[w] == rest[j];
                assert(ss[w] == rest[j]);
            }
        }
    }
}

} // verus!
