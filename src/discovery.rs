//! Peer discovery over broadcast: the signaling messages, the directory of
//! reachable peers, and what the node does on each message and timer tick.
use vstd::prelude::*;
use vstd::string::*;
use crate::address::opt_view;
use crate::error::AppError;
use crate::text::same_text;

verus! {

/// A signaling message. Discovery, liveness and departure messages keep the
/// directory; the others carry an opaque payload between two peers.
#[derive(Debug, Clone)]
pub enum P2PMessage {
    /// Periodic announcement of presence, with the port replies go to.
    PlayerDiscovery { player_id: String, player_name: String, port: u16 },
    /// Reply to an announcement, with the port replies go to.
    PlayerDiscoveryResponse { player_id: String, player_name: String, port: u16 },
    Offer { from: String, sdp: String },
    Answer { from: String, sdp: String },
    IceCandidate { from: String, candidate: String },
    StatusUpdate { player_id: String, mic_enabled: bool },
    /// Periodic liveness refresh.
    Heartbeat { player_id: String, timestamp: i64 },
    /// Departure notice.
    PlayerLeft { player_id: String },
}

/// A network endpoint: host address text and port.
#[derive(Debug, Clone)]
pub struct Endpoint {
    pub host: String,
    pub port: u16,
}

/// A reachable peer: its id, name, endpoint, and when it was last heard
/// from (milliseconds on the node's monotonic clock).
#[derive(Debug, Clone)]
pub struct PeerInfo {
    pub player_id: String,
    pub player_name: String,
    pub addr: Endpoint,
    pub last_seen: u64,
}

/// A directory record as plain values.
pub struct PeerEntry {
    pub id: Seq<char>,
    pub name: Seq<char>,
    pub host: Seq<char>,
    pub port: u16,
    pub last_seen: u64,
}

impl PeerInfo {
    pub open spec fn entry(&self) -> PeerEntry {
        PeerEntry {
            id: self.player_id@,
            name: self.player_name@,
            host: self.addr.host@,
            port: self.addr.port,
            last_seen: self.last_seen,
        }
    }

    /// A copy of the record.
    pub fn duplicate(&self) -> (r: PeerInfo)
        ensures
            r.entry() == self.entry(),
    {
        PeerInfo {
            player_id: self.player_id.clone(),
            player_name: self.player_name.clone(),
            addr: Endpoint { host: self.addr.host.clone(), port: self.addr.port },
            last_seen: self.last_seen,
        }
    }
}

pub open spec fn entries(v: Seq<PeerInfo>) -> Seq<PeerEntry> {
    v.map_values(|p: PeerInfo| p.entry())
}

/// Some record of `s` has id `id`.
pub open spec fn listed(s: Seq<PeerEntry>, id: Seq<char>) -> bool {
    exists|i: int| 0 <= i < s.len() && s[i].id == id
}

/// No two records share an id.
pub open spec fn unique_ids(s: Seq<PeerEntry>) -> bool {
    forall|i: int, j: int| 0 <= i < j < s.len() ==> s[i].id != s[j].id
}

/// Index of the first record at or after `i` with id `id`, or the length.
pub open spec fn find_from(s: Seq<PeerEntry>, id: Seq<char>, i: int) -> int
    decreases s.len() - i,
{
    if 0 <= i < s.len() && s[i].id != id {
        find_from(s, id, i + 1)
    } else {
        i
    }
}

pub open spec fn position(s: Seq<PeerEntry>, id: Seq<char>) -> int {
    find_from(s, id, 0)
}

proof fn lemma_find_from(s: Seq<PeerEntry>, id: Seq<char>, i: int)
    requires
        0 <= i <= s.len(),
    ensures
        i <= find_from(s, id, i) <= s.len(),
        forall|k: int| i <= k < find_from(s, id, i) ==> s[k].id != id,
        find_from(s, id, i) < s.len() ==> s[find_from(s, id, i)].id == id,
    decreases s.len() - i,
{
    if i < s.len() && s[i].id != id {
        lemma_find_from(s, id, i + 1);
    }
}

/// Where `id` stands in `s`, if it is listed.
pub proof fn lemma_position(s: Seq<PeerEntry>, id: Seq<char>)
    ensures
        0 <= position(s, id) <= s.len(),
        position(s, id) < s.len() <==> listed(s, id),
        position(s, id) < s.len() ==> s[position(s, id)].id == id,
{
    lemma_find_from(s, id, 0);
}

pub open spec fn max_u64(a: u64, b: u64) -> u64 {
    if a >= b {
        a
    } else {
        b
    }
}

/// Records `e`: a listed peer gets the new name and endpoint, and keeps the
/// later of the two times; an unlisted one is appended.
pub open spec fn upsert_view(s: Seq<PeerEntry>, e: PeerEntry) -> Seq<PeerEntry> {
    let p = position(s, e.id);
    if p < s.len() {
        s.update(p, PeerEntry { last_seen: max_u64(s[p].last_seen, e.last_seen), ..e })
    } else {
        s.push(e)
    }
}

/// Refreshes the last-seen time of `id`, if listed.
pub open spec fn refresh_view(s: Seq<PeerEntry>, id: Seq<char>, now: u64) -> Seq<PeerEntry> {
    let p = position(s, id);
    if p < s.len() {
        s.update(p, PeerEntry { last_seen: max_u64(s[p].last_seen, now), ..s[p] })
    } else {
        s
    }
}

/// Drops `id`, if listed.
pub open spec fn drop_view(s: Seq<PeerEntry>, id: Seq<char>) -> Seq<PeerEntry> {
    let p = position(s, id);
    if p < s.len() {
        s.remove(p)
    } else {
        s
    }
}

/// How long a peer may stay silent before it counts as gone, in milliseconds.
pub const PEER_TIMEOUT_MS: u64 = 90000;

/// Silent for longer than the timeout at time `now`.
pub open spec fn expired(e: PeerEntry, now: u64) -> bool {
    now > e.last_seen + PEER_TIMEOUT_MS
}

/// The records still alive at `now`, in order.
pub open spec fn fresh(s: Seq<PeerEntry>, now: u64) -> Seq<PeerEntry>
    decreases s.len(),
{
    if s.len() == 0 {
        s
    } else if expired(s.last(), now) {
        fresh(s.drop_last(), now)
    } else {
        fresh(s.drop_last(), now).push(s.last())
    }
}

/// The ids of the records gone silent at `now`, in order.
pub open spec fn expired_ids(s: Seq<PeerEntry>, now: u64) -> Seq<Seq<char>>
    decreases s.len(),
{
    if s.len() == 0 {
        Seq::<Seq<char>>::empty()
    } else if expired(s.last(), now) {
        expired_ids(s.drop_last(), now).push(s.last().id)
    } else {
        expired_ids(s.drop_last(), now)
    }
}

pub open spec fn is_local(local: Option<Seq<char>>, id: Seq<char>) -> bool {
    local == Some(id)
}

/// The directory after `msg` arrived from `host` at time `now`, on a node
/// whose own id is `local`.
pub open spec fn after_message(
    s: Seq<PeerEntry>,
    local: Option<Seq<char>>,
    msg: P2PMessage,
    host: Seq<char>,
    now: u64,
) -> Seq<PeerEntry> {
    match msg {
        P2PMessage::PlayerDiscovery { player_id, player_name, port } => if is_local(
            local,
            player_id@,
        ) {
            s
        } else {
            upsert_view(
                s,
                PeerEntry { id: player_id@, name: player_name@, host, port, last_seen: now },
            )
        },
        P2PMessage::PlayerDiscoveryResponse { player_id, player_name, port } => if is_local(
            local,
            player_id@,
        ) {
            s
        } else {
            upsert_view(
                s,
                PeerEntry { id: player_id@, name: player_name@, host, port, last_seen: now },
            )
        },
        P2PMessage::Heartbeat { player_id, timestamp } => refresh_view(s, player_id@, now),
        P2PMessage::PlayerLeft { player_id } => drop_view(s, player_id@),
        _ => s,
    }
}

/// The announcing peer of a discovery message or reply, if it is one.
pub open spec fn announcer(msg: P2PMessage) -> Option<(Seq<char>, Seq<char>)> {
    match msg {
        P2PMessage::PlayerDiscovery { player_id, player_name, port } => Some(
            (player_id@, player_name@),
        ),
        P2PMessage::PlayerDiscoveryResponse { player_id, player_name, port } => Some(
            (player_id@, player_name@),
        ),
        _ => None,
    }
}

/// `msg` makes a new peer known: an announcement or reply from a peer
/// other than this node that the directory does not list yet.
pub open spec fn joins(s: Seq<PeerEntry>, local: Option<Seq<char>>, msg: P2PMessage) -> bool {
    match announcer(msg) {
        Some(a) => !is_local(local, a.0) && !listed(s, a.0),
        None => false,
    }
}

/// What the node tells the layer above about a message or timer tick.
#[derive(Debug)]
pub enum PeerEvent {
    Joined { player_id: String, player_name: String },
    Left { player_id: String },
    /// A relayed offer, answer or candidate, passed on unexamined.
    Signal(P2PMessage),
    Status { player_id: String, mic_enabled: bool },
}

/// A message to send to an endpoint.
#[derive(Debug)]
pub struct Outgoing {
    pub to: Endpoint,
    pub message: P2PMessage,
}

/// What handling one message yields: at most one reply and one event.
#[derive(Debug)]
pub struct Reaction {
    pub reply: Option<Outgoing>,
    pub event: Option<PeerEvent>,
}

/// Announcements are sent every second for the first ten, then every five.
pub fn discovery_interval_secs(sent: u64) -> (r: u64)
    ensures
        r == (if sent < 10 {
            1u64
        } else {
            5u64
        }),
{
    if sent < 10 {
        1
    } else {
        5
    }
}

/// How far above the nominal port binding is tried.
pub const PORT_SEARCH_SPAN: u16 = 100;

/// The port to try binding at the `attempt`-th try (from zero), counting up
/// from `base`; `None` once the span is exhausted.
pub fn bind_candidate(base: u16, attempt: u16) -> (r: Option<u16>)
    ensures
        r == (if attempt <= PORT_SEARCH_SPAN && base + attempt <= u16::MAX {
            Some((base + attempt) as u16)
        } else {
            None::<u16>
        }),
{
    if attempt <= PORT_SEARCH_SPAN && base as u32 + attempt as u32 <= 65535 {
        Some(base + attempt)
    } else {
        None
    }
}

/// The discovery node: its own identity, the port it bound, and the
/// directory of peers it has heard from.
pub struct P2PSignalingService {
    listen_port: u16,
    actual_port: u16,
    local_player_id: Option<String>,
    local_player_name: Option<String>,
    virtual_ip: Option<String>,
    peers: Vec<PeerInfo>,
}

impl P2PSignalingService {
    pub closed spec fn directory(&self) -> Seq<PeerEntry> {
        entries(self.peers@)
    }

    pub closed spec fn local_id(&self) -> Option<Seq<char>> {
        opt_view(self.local_player_id)
    }

    pub closed spec fn local_name(&self) -> Option<Seq<char>> {
        opt_view(self.local_player_name)
    }

    pub closed spec fn nominal_port(&self) -> u16 {
        self.listen_port
    }

    pub closed spec fn bound_port(&self) -> u16 {
        self.actual_port
    }

    /// Ids are unique and the node never lists itself.
    pub open spec fn wf(&self) -> bool {
        unique_ids(self.directory()) && (self.local_id() matches Some(l) ==> !listed(
            self.directory(),
            l,
        ))
    }

    /// A node with no identity yet and an empty directory.
    pub fn new(listen_port: u16) -> (r: P2PSignalingService)
        ensures
            r.wf(),
            r.directory().len() == 0,
            r.local_id() is None,
            r.local_name() is None,
            r.nominal_port() == listen_port,
            r.bound_port() == listen_port,
    {
        let r = P2PSignalingService {
            listen_port,
            actual_port: listen_port,
            local_player_id: None,
            local_player_name: None,
            virtual_ip: None,
            peers: Vec::new(),
        };
        assert(r.directory() =~= Seq::<PeerEntry>::empty());
        r
    }

    /// Takes on an identity and the port actually bound. A record under the
    /// node's own id, if any, is dropped.
    pub fn start(&mut self, player_id: String, player_name: String, virtual_ip: String, bound_port: u16)
        requires
            old(self).wf(),
        ensures
            final(self).wf(),
            final(self).local_id() == Some(player_id@),
            final(self).local_name() == Some(player_name@),
            final(self).bound_port() == bound_port,
            final(self).nominal_port() == old(self).nominal_port(),
            final(self).directory() == drop_view(old(self).directory(), player_id@),
    {
        self.drop_peer(player_id.as_str());
        self.local_player_id = Some(player_id);
        self.local_player_name = Some(player_name);
        self.virtual_ip = Some(virtual_ip);
        self.actual_port = bound_port;
    }

    /// Index of `id` in the directory, or its length.
    fn find(&self, id: &str) -> (r: usize)
        ensures
            r == position(self.directory(), id@),
    {
        let ghost s = self.directory();
        let mut i: usize = 0;
        while i < self.peers.len()
            invariant
                s == entries(self.peers@),
                0 <= i <= self.peers.len(),
                position(s, id@) == find_from(s, id@, i as int),
            decreases self.peers.len() - i,
        {
            assert(s[i as int].id == self.peers[i as int].player_id@);
            if same_text(self.peers[i].player_id.as_str(), id) {
                return i;
            }
            i = i + 1;
        }
        i
    }

    /// Drops `id` from the directory, if listed.
    fn drop_peer(&mut self, id: &str) -> (r: bool)
        requires
            old(self).wf(),
        ensures
            final(self).directory() == drop_view(old(self).directory(), id@),
            r == listed(old(self).directory(), id@),
            final(self).local_id() == old(self).local_id(),
            final(self).local_name() == old(self).local_name(),
            final(self).bound_port() == old(self).bound_port(),
            final(self).nominal_port() == old(self).nominal_port(),
            unique_ids(final(self).directory()),
            forall|k: Seq<char>| listed(final(self).directory(), k) <==> (listed(old(self).directory(), k) && k != id@),
    {
        let ghost s = self.directory();
        proof {
            lemma_position(s, id@);
        }
        let p = self.find(id);
        if p < self.peers.len() {
            self.peers.remove(p);
            assert(self.directory() =~= s.remove(p as int));
            proof {
                lemma_remove_listing(s, p as int);
            }
            true
        } else {
            false
        }
    }

    /// Handles one message that arrived from `host` at time `now`.
    ///
    /// An announcement or reply from another peer records it (a known peer
    /// is refreshed) and reports it as joined only when it was not listed;
    /// an announcement is also answered, at the announcer's host and the
    /// port it named. A heartbeat refreshes a listed peer. A departure
    /// drops the peer and reports it as left. Payload messages are passed
    /// on. Messages under the node's own id change nothing.
    pub fn handle_message(&mut self, msg: P2PMessage, host: String, now: u64) -> (r: Reaction)
        requires
            old(self).wf(),
        ensures
            final(self).wf(),
            final(self).directory() == after_message(
                old(self).directory(),
                old(self).local_id(),
                msg,
                host@,
                now,
            ),
            final(self).local_id() == old(self).local_id(),
            final(self).local_name() == old(self).local_name(),
            final(self).bound_port() == old(self).bound_port(),
            final(self).nominal_port() == old(self).nominal_port(),
            (r.event matches Some(PeerEvent::Joined { player_id, player_name }) && announcer(msg)
                == Some((player_id@, player_name@))) <==> joins(
                old(self).directory(),
                old(self).local_id(),
                msg,
            ),
            (r.event matches Some(PeerEvent::Left { player_id }) && msg matches P2PMessage::PlayerLeft { player_id: q } && q@ == player_id@) <==> msg is PlayerLeft,
            msg is Offer || msg is Answer || msg is IceCandidate ==> r.event == Some(
                PeerEvent::Signal(msg),
            ),
            msg matches P2PMessage::StatusUpdate { player_id, mic_enabled } ==> (r.event matches Some(PeerEvent::Status { player_id: p, mic_enabled: m }) && p@ == player_id@ && m == mic_enabled),
            msg is Heartbeat ==> r.event is None,
            msg is PlayerDiscovery || msg is PlayerDiscoveryResponse ==> (r.event is Some <==> joins(
                old(self).directory(),
                old(self).local_id(),
                msg,
            )),
            r.reply is Some <==> (msg is PlayerDiscovery && !is_local(
                old(self).local_id(),
                msg->PlayerDiscovery_player_id@,
            ) && old(self).local_id() is Some && old(self).local_name() is Some),
            r.reply matches Some(o) ==> o.to.host@ == host@ && o.to.port
                == msg->PlayerDiscovery_port && (o.message matches P2PMessage::PlayerDiscoveryResponse { player_id, player_name, port } && Some(player_id@) == old(self).local_id() && Some(player_name@) == old(self).local_name() && port == old(self).bound_port()),
    {
        let ghost s = self.directory();
        let ghost local = self.local_id();
        match msg {
            P2PMessage::PlayerDiscovery { player_id, player_name, port } => {
                if self.is_self(player_id.as_str()) {
                    return Reaction { reply: None, event: None };
                }
                let reply = self.discovery_reply(host.clone(), port);
                let joined = self.record(player_id, player_name, host, port, now);
                Reaction { reply, event: joined }
            },
            P2PMessage::PlayerDiscoveryResponse { player_id, player_name, port } => {
                if self.is_self(player_id.as_str()) {
                    return Reaction { reply: None, event: None };
                }
                let joined = self.record(player_id, player_name, host, port, now);
                Reaction { reply: None, event: joined }
            },
            P2PMessage::Heartbeat { player_id, timestamp } => {
                self.refresh(player_id.as_str(), now);
                Reaction { reply: None, event: None }
            },
            P2PMessage::PlayerLeft { player_id } => {
                self.drop_peer(player_id.as_str());
                Reaction { reply: None, event: Some(PeerEvent::Left { player_id }) }
            },
            P2PMessage::StatusUpdate { player_id, mic_enabled } => {
                Reaction { reply: None, event: Some(PeerEvent::Status { player_id, mic_enabled }) }
            },
            P2PMessage::Offer { from, sdp } => {
                Reaction { reply: None, event: Some(PeerEvent::Signal(P2PMessage::Offer { from, sdp })) }
            },
            P2PMessage::Answer { from, sdp } => {
                Reaction { reply: None, event: Some(PeerEvent::Signal(P2PMessage::Answer { from, sdp })) }
            },
            P2PMessage::IceCandidate { from, candidate } => {
                Reaction {
                    reply: None,
                    event: Some(PeerEvent::Signal(P2PMessage::IceCandidate { from, candidate })),
                }
            },
        }
    }

    fn is_self(&self, id: &str) -> (r: bool)
        ensures
            r == is_local(self.local_id(), id@),
    {
        match &self.local_player_id {
            Some(l) => same_text(l.as_str(), id),
            None => false,
        }
    }

    /// The answer to an announcement from `host` naming `port`.
    fn discovery_reply(&self, host: String, port: u16) -> (r: Option<Outgoing>)
        ensures
            r is Some <==> (self.local_id() is Some && self.local_name() is Some),
            r matches Some(o) ==> o.to.host@ == host@ && o.to.port == port && (o.message matches P2PMessage::PlayerDiscoveryResponse { player_id, player_name, port: p } && Some(player_id@) == self.local_id() && Some(player_name@) == self.local_name() && p == self.bound_port()),
    {
        match (&self.local_player_id, &self.local_player_name) {
            (Some(id), Some(name)) => Some(
                Outgoing {
                    to: Endpoint { host, port },
                    message: P2PMessage::PlayerDiscoveryResponse {
                        player_id: id.clone(),
                        player_name: name.clone(),
                        port: self.actual_port,
                    },
                },
            ),
            _ => None,
        }
    }

    /// Records an announcing peer; reports it as joined when it was new.
    fn record(&mut self, player_id: String, player_name: String, host: String, port: u16, now: u64) -> (r: Option<PeerEvent>)
        requires
            old(self).wf(),
            !is_local(old(self).local_id(), player_id@),
        ensures
            final(self).wf(),
            final(self).directory() == upsert_view(
                old(self).directory(),
                PeerEntry { id: player_id@, name: player_name@, host: host@, port, last_seen: now },
            ),
            final(self).local_id() == old(self).local_id(),
            final(self).local_name() == old(self).local_name(),
            final(self).bound_port() == old(self).bound_port(),
            final(self).nominal_port() == old(self).nominal_port(),
            (r matches Some(PeerEvent::Joined { player_id: a, player_name: b }) && a@ == player_id@ && b@ == player_name@) <==> !listed(old(self).directory(), player_id@),
            r is None <==> listed(old(self).directory(), player_id@),
    {
        let ghost s = self.directory();
        let ghost e = PeerEntry { id: player_id@, name: player_name@, host: host@, port, last_seen: now };
        proof {
            lemma_position(s, player_id@);
        }
        let p = self.find(player_id.as_str());
        if p < self.peers.len() {
            let seen = if self.peers[p].last_seen >= now {
                self.peers[p].last_seen
            } else {
                now
            };
            let info = PeerInfo { player_id, player_name, addr: Endpoint { host, port }, last_seen: seen };
            self.peers.set(p, info);
            assert(self.directory() =~= upsert_view(s, e));
            proof {
                lemma_update_keeps_listing(s, p as int, upsert_view(s, e)[p as int]);
            }
            None
        } else {
            let event = PeerEvent::Joined { player_id: player_id.clone(), player_name: player_name.clone() };
            let info = PeerInfo { player_id, player_name, addr: Endpoint { host, port }, last_seen: now };
            self.peers.push(info);
            assert(self.directory() =~= upsert_view(s, e));
            proof {
                lemma_push_listing(s, e);
            }
            Some(event)
        }
    }

    /// Refreshes the last-seen time of `id`, if listed.
    fn refresh(&mut self, id: &str, now: u64)
        requires
            old(self).wf(),
        ensures
            final(self).wf(),
            final(self).directory() == refresh_view(old(self).directory(), id@, now),
            final(self).local_id() == old(self).local_id(),
            final(self).local_name() == old(self).local_name(),
            final(self).bound_port() == old(self).bound_port(),
            final(self).nominal_port() == old(self).nominal_port(),
    {
        let ghost s = self.directory();
        proof {
            lemma_position(s, id@);
        }
        let p = self.find(id);
        if p < self.peers.len() {
            let old_info = self.peers[p].duplicate();
            let seen = if old_info.last_seen >= now {
                old_info.last_seen
            } else {
                now
            };
            let info = PeerInfo { last_seen: seen, ..old_info };
            self.peers.set(p, info);
            assert(self.directory() =~= refresh_view(s, id@, now));
            proof {
                lemma_update_keeps_listing(s, p as int, refresh_view(s, id@, now)[p as int]);
            }
        }
    }

    /// Drops every peer silent for longer than the timeout at `now` and
    /// returns their ids, each once, in directory order.
    pub fn sweep(&mut self, now: u64) -> (r: Vec<String>)
        requires
            old(self).wf(),
        ensures
            final(self).wf(),
            final(self).directory() == fresh(old(self).directory(), now),
            r@.map_values(|x: String| x@) == expired_ids(old(self).directory(), now),
            final(self).local_id() == old(self).local_id(),
            final(self).local_name() == old(self).local_name(),
            final(self).bound_port() == old(self).bound_port(),
            final(self).nominal_port() == old(self).nominal_port(),
    {
        let ghost s = self.directory();
        let mut removed: Vec<String> = Vec::new();
        let mut i: usize = 0;
        let ghost mut k: int = 0;
        assert(s.take(0) =~= Seq::<PeerEntry>::empty());
        assert(s.skip(0) =~= s);
        while i < self.peers.len()
            invariant
                0 <= k <= s.len(),
                0 <= i <= self.peers.len(),
                self.directory() == fresh(s.take(k), now) + s.skip(k),
                i == fresh(s.take(k), now).len(),
                removed@.map_values(|x: String| x@) == expired_ids(s.take(k), now),
                self.local_id() == old(self).local_id(),
                self.local_name() == old(self).local_name(),
                self.bound_port() == old(self).bound_port(),
                self.nominal_port() == old(self).nominal_port(),
            decreases self.peers.len() - i,
        {
            let ghost cur = self.directory();
            assert(cur[i as int] == s[k]);
            assert(s.take(k + 1).drop_last() =~= s.take(k));
            assert(s.take(k + 1).last() == s[k]);
            let stale = now as u128 > self.peers[i].last_seen as u128 + PEER_TIMEOUT_MS as u128;
            assert(stale == expired(s[k], now));
            assert(s.skip(k).drop_first() =~= s.skip(k + 1));
            if stale {
                assert(fresh(s.take(k + 1), now) == fresh(s.take(k), now));
                let ghost before = self.peers@;
                let gone = self.peers.remove(i);
                assert(self.peers@ == before.remove(i as int));
                assert forall|j: int| 0 <= j < self.peers@.len() implies #[trigger] self.directory()[j] == cur.remove(i as int)[j] by {
                    if j < i {
                        assert(self.peers@[j] == before[j]);
                    } else {
                        assert(self.peers@[j] == before[j + 1]);
                    }
                }
                assert(self.directory() =~= cur.remove(i as int));
                removed.push(gone.player_id);
                assert(self.directory() =~= fresh(s.take(k + 1), now) + s.skip(k + 1));
                assert(removed@.map_values(|x: String| x@) =~= expired_ids(s.take(k + 1), now));
            } else {
                assert(fresh(s.take(k + 1), now) == fresh(s.take(k), now).push(s[k]));
                assert(self.directory() =~= fresh(s.take(k + 1), now) + s.skip(k + 1));
                i = i + 1;
            }
            proof {
                k = k + 1;
            }
        }
        assert(s.skip(k) =~= Seq::<PeerEntry>::empty());
        assert(k == s.len());
        assert(s.take(k) =~= s);
        assert(self.directory() =~= fresh(s, now));
        proof {
            lemma_fresh_listing(s, now);
        }
        removed
    }

    /// Stops the node: the departure notice to broadcast, if the node has an
    /// identity, and an empty directory.
    pub fn stop(&mut self) -> (r: Option<P2PMessage>)
        requires
            old(self).wf(),
        ensures
            final(self).wf(),
            final(self).directory().len() == 0,
            r is Some <==> old(self).local_id() is Some,
            r matches Some(m) ==> (m matches P2PMessage::PlayerLeft { player_id } && Some(player_id@) == old(self).local_id()),
            final(self).local_id() == old(self).local_id(),
            final(self).local_name() == old(self).local_name(),
            final(self).bound_port() == old(self).bound_port(),
    {
        self.peers.clear();
        assert(self.directory() =~= Seq::<PeerEntry>::empty());
        match &self.local_player_id {
            Some(id) => Some(P2PMessage::PlayerLeft { player_id: id.clone() }),
            None => None,
        }
    }

    /// The endpoint of a listed peer; an error naming it when unlisted.
    pub fn peer_endpoint(&self, player_id: &str) -> (r: Result<Endpoint, AppError>)
        requires
            self.wf(),
        ensures
            r is Ok <==> listed(self.directory(), player_id@),
            r matches Ok(e) ==> e.host@ == self.directory()[position(self.directory(), player_id@)].host && e.port == self.directory()[position(self.directory(), player_id@)].port,
            r matches Err(e) ==> e is NetworkError,
    {
        proof {
            lemma_position(self.directory(), player_id@);
        }
        let p = self.find(player_id);
        if p < self.peers.len() {
            Ok(Endpoint { host: self.peers[p].addr.host.clone(), port: self.peers[p].addr.port })
        } else {
            let mut m = String::from_str("玩家不存在: ");
            m.append(player_id);
            Err(AppError::NetworkError(m))
        }
    }

    /// The announcement this node broadcasts, once it has an identity.
    pub fn discovery_message(&self) -> (r: Option<P2PMessage>)
        ensures
            r is Some <==> (self.local_id() is Some && self.local_name() is Some),
            r matches Some(m) ==> (m matches P2PMessage::PlayerDiscovery { player_id, player_name, port } && Some(player_id@) == self.local_id() && Some(player_name@) == self.local_name() && port == self.bound_port()),
    {
        match (&self.local_player_id, &self.local_player_name) {
            (Some(id), Some(name)) => Some(
                P2PMessage::PlayerDiscovery {
                    player_id: id.clone(),
                    player_name: name.clone(),
                    port: self.actual_port,
                },
            ),
            _ => None,
        }
    }

    /// The liveness message this node broadcasts, once it has an identity.
    pub fn heartbeat_message(&self, timestamp: i64) -> (r: Option<P2PMessage>)
        ensures
            r is Some <==> self.local_id() is Some,
            r matches Some(m) ==> (m matches P2PMessage::Heartbeat { player_id, timestamp: t } && Some(player_id@) == self.local_id() && t == timestamp),
    {
        match &self.local_player_id {
            Some(id) => Some(P2PMessage::Heartbeat { player_id: id.clone(), timestamp }),
            None => None,
        }
    }

    /// The broadcast endpoint on the bound port.
    pub fn broadcast_endpoint(&self) -> (r: Endpoint)
        ensures
            r.host@ == "255.255.255.255"@,
            r.port == self.bound_port(),
    {
        Endpoint { host: String::from_str("255.255.255.255"), port: self.actual_port }
    }

    /// The port actually bound.
    pub fn actual_port(&self) -> (r: u16)
        ensures
            r == self.bound_port(),
    {
        self.actual_port
    }

    /// The directory's records.
    pub fn get_peers(&self) -> (r: Vec<PeerInfo>)
        ensures
            entries(r@) == self.directory(),
    {
        let mut out: Vec<PeerInfo> = Vec::new();
        let mut i: usize = 0;
        while i < self.peers.len()
            invariant
                0 <= i <= self.peers.len(),
                entries(out@) == self.directory().take(i as int),
                out@.len() == i,
            decreases self.peers.len() - i,
        {
            assert(self.directory()[i as int] == self.peers[i as int].entry());
            let d = self.peers[i].duplicate();
            let ghost prev = out@;
            out.push(d);
            assert(out@ == prev.push(d));
            assert forall|j: int| 0 <= j <= i implies #[trigger] entries(out@)[j] == self.directory()[j] by {
                if j < i {
                    assert(out@[j] == prev[j]);
                    assert(entries(prev)[j] == self.directory().take(i as int)[j]);
                }
            }
            assert(entries(out@) =~= self.directory().take(i + 1));
            i = i + 1;
        }
        assert(self.directory().take(i as int) =~= self.directory());
        out
    }
}

impl Default for P2PSignalingService {
    fn default() -> (r: P2PSignalingService)
        ensures
            r.wf(),
            r.directory().len() == 0,
            r.nominal_port() == 47777,
    {
        P2PSignalingService::new(47777)
    }
}

proof fn lemma_remove_listing(s: Seq<PeerEntry>, p: int)
    requires
        unique_ids(s),
        0 <= p < s.len(),
    ensures
        unique_ids(s.remove(p)),
        forall|k: Seq<char>| listed(s.remove(p), k) <==> (listed(s, k) && k != s[p].id),
{
    let t = s.remove(p);
    assert forall|k: Seq<char>| listed(t, k) <==> (listed(s, k) && k != s[p].id) by {
        if listed(t, k) {
            let i = choose|i: int| 0 <= i < t.len() && t[i].id == k;
            if i < p {
                assert(t[i] == s[i]);
            } else {
                assert(t[i] == s[i + 1]);
            }
        }
        if listed(s, k) && k != s[p].id {
            let i = choose|i: int| 0 <= i < s.len() && s[i].id == k;
            if i < p {
                assert(t[i] == s[i]);
            } else {
                assert(t[i - 1] == s[i]);
            }
        }
    }
}

proof fn lemma_update_keeps_listing(s: Seq<PeerEntry>, p: int, e: PeerEntry)
    requires
        unique_ids(s),
        0 <= p < s.len(),
        e.id == s[p].id,
    ensures
        unique_ids(s.update(p, e)),
        forall|k: Seq<char>| listed(s.update(p, e), k) <==> listed(s, k),
{
    let t = s.update(p, e);
    assert forall|k: Seq<char>| listed(t, k) <==> listed(s, k) by {
        if listed(t, k) {
            let i = choose|i: int| 0 <= i < t.len() && t[i].id == k;
            assert(s[i].id == k);
        }
        if listed(s, k) {
            let i = choose|i: int| 0 <= i < s.len() && s[i].id == k;
            assert(t[i].id == k);
        }
    }
}

proof fn lemma_push_listing(s: Seq<PeerEntry>, e: PeerEntry)
    requires
        unique_ids(s),
        !listed(s, e.id),
    ensures
        unique_ids(s.push(e)),
        forall|k: Seq<char>| listed(s.push(e), k) <==> (listed(s, k) || k == e.id),
{
    let t = s.push(e);
    assert forall|i: int, j: int| 0 <= i < j < t.len() implies t[i].id != t[j].id by {
        if j == s.len() {
            assert(t[i] == s[i]);
        }
    }
    assert forall|k: Seq<char>| listed(t, k) <==> (listed(s, k) || k == e.id) by {
        if listed(t, k) {
            let i = choose|i: int| 0 <= i < t.len() && t[i].id == k;
            if i < s.len() {
                assert(t[i] == s[i]);
            }
        }
        if listed(s, k) {
            let i = choose|i: int| 0 <= i < s.len() && s[i].id == k;
            assert(t[i] == s[i]);
        }
        if k == e.id {
            assert(t[s.len() as int] == e);
        }
    }
}

/// What survives a sweep: ids stay unique, and a peer is listed afterwards
/// exactly when it was listed and had not gone silent; the reported ids are
/// distinct and are exactly the silent peers.
pub proof fn lemma_fresh_listing(s: Seq<PeerEntry>, now: u64)
    requires
        unique_ids(s),
    ensures
        unique_ids(fresh(s, now)),
        forall|k: Seq<char>| listed(fresh(s, now), k) <==> (listed(s, k) && !expired(s[position(s, k)], now)),
        forall|k: Seq<char>| expired_ids(s, now).contains(k) <==> (listed(s, k) && expired(s[position(s, k)], now)),
        forall|i: int, j: int| 0 <= i < j < expired_ids(s, now).len() ==> expired_ids(s, now)[i] != expired_ids(s, now)[j],
    decreases s.len(),
{
    if s.len() > 0 {
        let q = s.drop_last();
        let x = s.last();
        assert(unique_ids(q));
        lemma_fresh_listing(q, now);
        assert forall|k: Seq<char>| listed(s, k) <==> (listed(q, k) || k == x.id) by {
            if listed(s, k) {
                let i = choose|i: int| 0 <= i < s.len() && s[i].id == k;
                if i < q.len() {
                    assert(q[i] == s[i]);
                }
            }
            if listed(q, k) {
                let i = choose|i: int| 0 <= i < q.len() && q[i].id == k;
                assert(s[i] == q[i]);
            }
        }
        assert(!listed(q, x.id)) by {
            if listed(q, x.id) {
                let i = choose|i: int| 0 <= i < q.len() && q[i].id == x.id;
                assert(s[i].id == s[s.len() - 1].id);
            }
        }
        assert forall|k: Seq<char>| listed(q, k) implies position(s, k) == position(q, k) && s[position(s, k)] == q[position(q, k)] by {
            lemma_position(q, k);
            lemma_position(s, k);
            lemma_find_from(s, k, 0);
            lemma_find_from(q, k, 0);
            let a = position(s, k);
            let b = position(q, k);
            if a < b {
                assert(q[a] == s[a]);
            }
            if b < a {
                assert(s[b] == q[b]);
            }
        }
        lemma_position(s, x.id);
        lemma_find_from(s, x.id, 0);
        if position(s, x.id) < s.len() - 1 {
            assert(q[position(s, x.id)] == s[position(s, x.id)]);
        }
        if expired(x, now) {
            assert(expired_ids(s, now) == expired_ids(q, now).push(x.id));
            let e = expired_ids(s, now);
            assert forall|k: Seq<char>| e.contains(k) <==> (expired_ids(q, now).contains(k) || k == x.id) by {
                if e.contains(k) {
                    let i = choose|i: int| 0 <= i < e.len() && e[i] == k;
                    if i < e.len() - 1 {
                        assert(expired_ids(q, now)[i] == k);
                    }
                }
                if expired_ids(q, now).contains(k) {
                    let i = choose|i: int| 0 <= i < expired_ids(q, now).len() && expired_ids(q, now)[i] == k;
                    assert(e[i] == k);
                }
                if k == x.id {
                    assert(e[e.len() - 1] == k);
                }
            }
            assert forall|i: int, j: int| 0 <= i < j < e.len() implies e[i] != e[j] by {
                if j == e.len() - 1 {
                    assert(e[i] == expired_ids(q, now)[i]);
                    assert(expired_ids(q, now).contains(e[i]));
                }
            }
        } else {
            let f = fresh(s, now);
            let fq = fresh(q, now);
            assert(f == fq.push(x));
            assert(!listed(fq, x.id));
            assert forall|i: int, j: int| 0 <= i < j < f.len() implies f[i].id != f[j].id by {
                if j == f.len() - 1 {
                    assert(f[i] == fq[i]);
                    if f[i].id == x.id {
                        assert(listed(fq, x.id));
                    }
                }
            }
            assert forall|k: Seq<char>| listed(f, k) <==> (listed(fq, k) || k == x.id) by {
                if listed(f, k) {
                    let i = choose|i: int| 0 <= i < f.len() && f[i].id == k;
                    if i < fq.len() {
                        assert(fq[i] == f[i]);
                    }
                }
                if listed(fq, k) {
                    let i = choose|i: int| 0 <= i < fq.len() && fq[i].id == k;
                    assert(f[i] == fq[i]);
                }
                if k == x.id {
                    assert(f[f.len() - 1] == x);
                }
            }
        }
    }
}

/// The record of a listed peer after an update that keeps its id.
proof fn lemma_position_after_update(s: Seq<PeerEntry>, p: int, e: PeerEntry, k: Seq<char>)
    requires
        unique_ids(s),
        0 <= p < s.len(),
        e.id == s[p].id,
        listed(s, k),
    ensures
        position(s.update(p, e), k) == position(s, k),
{
    lemma_position(s, k);
    lemma_update_keeps_listing(s, p, e);
    lemma_position(s.update(p, e), k);
    lemma_find_from(s, k, 0);
    lemma_find_from(s.update(p, e), k, 0);
    let a = position(s, k);
    let b = position(s.update(p, e), k);
    if a < b {
        assert(s.update(p, e)[a].id == s[a].id);
    }
    if b < a {
        assert(s.update(p, e)[b].id == s[b].id);
    }
}

/// A message under the node's own id never puts the node in its own
/// directory, and no other message does either: a node that does not list
/// itself never comes to, even when another node announces the same id.
pub proof fn lemma_never_lists_itself(
    s: Seq<PeerEntry>,
    me: Seq<char>,
    msg: P2PMessage,
    host: Seq<char>,
    now: u64,
)
    requires
        unique_ids(s),
        !listed(s, me),
    ensures
        unique_ids(after_message(s, Some(me), msg, host, now)),
        !listed(after_message(s, Some(me), msg, host, now), me),
{
    match msg {
        P2PMessage::PlayerDiscovery { player_id, player_name, port } => {
            if player_id@ != me {
                lemma_upsert(s, PeerEntry { id: player_id@, name: player_name@, host, port, last_seen: now });
            }
        },
        P2PMessage::PlayerDiscoveryResponse { player_id, player_name, port } => {
            if player_id@ != me {
                lemma_upsert(s, PeerEntry { id: player_id@, name: player_name@, host, port, last_seen: now });
            }
        },
        P2PMessage::Heartbeat { player_id, timestamp } => {
            lemma_refresh(s, player_id@, now);
        },
        P2PMessage::PlayerLeft { player_id } => {
            lemma_position(s, player_id@);
            if position(s, player_id@) < s.len() {
                lemma_remove_listing(s, position(s, player_id@));
            }
        },
        _ => {},
    }
}

/// Recording `e` lists exactly one more id, at most, keeps ids unique, and
/// leaves `e`'s record seen no earlier than `e`.
pub proof fn lemma_upsert(s: Seq<PeerEntry>, e: PeerEntry)
    requires
        unique_ids(s),
    ensures
        unique_ids(upsert_view(s, e)),
        forall|k: Seq<char>| listed(upsert_view(s, e), k) <==> (listed(s, k) || k == e.id),
        upsert_view(s, e)[position(upsert_view(s, e), e.id)].last_seen >= e.last_seen,
        position(upsert_view(s, e), e.id) < upsert_view(s, e).len(),
{
    lemma_position(s, e.id);
    let p = position(s, e.id);
    if p < s.len() {
        let n = PeerEntry { last_seen: max_u64(s[p].last_seen, e.last_seen), ..e };
        lemma_update_keeps_listing(s, p, n);
        lemma_position_after_update(s, p, n, e.id);
        assert forall|k: Seq<char>| listed(upsert_view(s, e), k) <==> (listed(s, k) || k == e.id) by {
            if k == e.id {
                assert(listed(s, k));
            }
        }
    } else {
        lemma_push_listing(s, e);
        let t = s.push(e);
        lemma_position(t, e.id);
        lemma_find_from(t, e.id, 0);
        if position(t, e.id) < s.len() {
            assert(t[position(t, e.id)] == s[position(t, e.id)]);
        }
    }
}

/// A heartbeat changes no listing, keeps ids unique, and leaves a listed
/// sender seen no earlier than the heartbeat.
pub proof fn lemma_refresh(s: Seq<PeerEntry>, id: Seq<char>, now: u64)
    requires
        unique_ids(s),
    ensures
        unique_ids(refresh_view(s, id, now)),
        forall|k: Seq<char>| listed(refresh_view(s, id, now), k) <==> listed(s, k),
        listed(s, id) ==> position(refresh_view(s, id, now), id) == position(s, id)
            && refresh_view(s, id, now)[position(s, id)].last_seen >= now
            && refresh_view(s, id, now)[position(s, id)].last_seen >= s[position(s, id)].last_seen,
{
    lemma_position(s, id);
    let p = position(s, id);
    if p < s.len() {
        let n = PeerEntry { last_seen: max_u64(s[p].last_seen, now), ..s[p] };
        lemma_update_keeps_listing(s, p, n);
        lemma_position_after_update(s, p, n, id);
    }
}

/// Two announcements in a row from a peer the directory does not list
/// make it known once: the first reports it as joined, the second, which
/// finds it listed, does not.
pub proof fn lemma_single_join(
    s: Seq<PeerEntry>,
    local: Option<Seq<char>>,
    first: P2PMessage,
    second: P2PMessage,
    host: Seq<char>,
    t1: u64,
)
    requires
        unique_ids(s),
        first is PlayerDiscovery,
        second is PlayerDiscovery,
        first->PlayerDiscovery_player_id@ == second->PlayerDiscovery_player_id@,
        !listed(s, first->PlayerDiscovery_player_id@),
        !is_local(local, first->PlayerDiscovery_player_id@),
    ensures
        joins(s, local, first),
        !joins(after_message(s, local, first, host, t1), local, second),
{
    let id = first->PlayerDiscovery_player_id@;
    lemma_upsert(
        s,
        PeerEntry {
            id,
            name: first->PlayerDiscovery_player_name@,
            host,
            port: first->PlayerDiscovery_port,
            last_seen: t1,
        },
    );
}

/// A peer seen no earlier than `now - PEER_TIMEOUT_MS` survives a sweep at
/// `now`; one silent for longer is dropped, reported once, and not
/// reported again by a later sweep.
pub proof fn lemma_sweep_outcome(s: Seq<PeerEntry>, id: Seq<char>, now: u64, later: u64)
    requires
        unique_ids(s),
        listed(s, id),
    ensures
        !expired(s[position(s, id)], now) ==> listed(fresh(s, now), id),
        expired(s[position(s, id)], now) ==> !listed(fresh(s, now), id)
            && expired_ids(s, now).contains(id)
            && (forall|i: int, j: int| 0 <= i < j < expired_ids(s, now).len()
                && expired_ids(s, now)[i] == id ==> expired_ids(s, now)[j] != id)
            && !expired_ids(fresh(s, now), later).contains(id),
{
    lemma_fresh_listing(s, now);
    lemma_fresh_listing(fresh(s, now), later);
}

/// A step the directory takes: a message, or a sweep for silent peers.
pub enum DirEvent {
    Message(P2PMessage),
    Sweep,
}

/// The directory after a run of steps, the `i`-th at `times[i]`, every
/// message arriving from `host`.
pub open spec fn after_events(
    s: Seq<PeerEntry>,
    local: Option<Seq<char>>,
    evs: Seq<DirEvent>,
    host: Seq<char>,
    times: Seq<u64>,
) -> Seq<PeerEntry>
    decreases evs.len(),
{
    if evs.len() == 0 || times.len() < evs.len() {
        s
    } else {
        let prev = after_events(s, local, evs.drop_last(), host, times.take(evs.len() - 1));
        let t = times[evs.len() - 1];
        match evs.last() {
            DirEvent::Message(m) => after_message(prev, local, m, host, t),
            DirEvent::Sweep => fresh(prev, t),
        }
    }
}

/// Where `id` stands once `x` is appended.
proof fn lemma_position_push(t: Seq<PeerEntry>, x: PeerEntry, id: Seq<char>)
    ensures
        listed(t, id) ==> position(t.push(x), id) == position(t, id),
        !listed(t, id) && x.id == id ==> position(t.push(x), id) == t.len(),
{
    let u = t.push(x);
    lemma_position(t, id);
    lemma_position(u, id);
    lemma_find_from(t, id, 0);
    lemma_find_from(u, id, 0);
    let a = position(t, id);
    let b = position(u, id);
    if listed(t, id) {
        if b < a {
            assert(u[b] == t[b]);
        }
        if a < b {
            assert(u[a] == t[a]);
        }
    } else if x.id == id {
        if b < t.len() {
            assert(u[b] == t[b]);
        }
        assert(u[t.len() as int] == x);
    }
}

/// A sweep leaves the record of a peer it keeps as it was.
pub proof fn lemma_fresh_keeps_record(s: Seq<PeerEntry>, id: Seq<char>, now: u64)
    requires
        unique_ids(s),
        listed(fresh(s, now), id),
    ensures
        listed(s, id),
        fresh(s, now)[position(fresh(s, now), id)] == s[position(s, id)],
    decreases s.len(),
{
    lemma_fresh_listing(s, now);
    if s.len() > 0 {
        let q = s.drop_last();
        let x = s.last();
        assert(unique_ids(q));
        lemma_fresh_listing(q, now);
        assert(!listed(q, x.id)) by {
            if listed(q, x.id) {
                let i = choose|i: int| 0 <= i < q.len() && q[i].id == x.id;
                assert(s[i].id == s[s.len() - 1].id);
            }
        }
        lemma_position_push(q, x, id);
        assert(s == q.push(x));
        if expired(x, now) {
            assert(fresh(s, now) == fresh(q, now));
            if !listed(fresh(q, now), id) {
                assert(false);
            }
            lemma_fresh_keeps_record(q, id, now);
            if id == x.id {
                assert(false);
            }
            lemma_position(q, id);
            assert(s[position(q, id)] == q[position(q, id)]);
        } else {
            let fq = fresh(q, now);
            assert(fresh(s, now) == fq.push(x));
            lemma_position_push(fq, x, id);
            if id == x.id {
                assert(!listed(fq, id));
                lemma_position(s, id);
            } else {
                assert(listed(fq, id)) by {
                    let i = choose|i: int| 0 <= i < fresh(s, now).len() && fresh(s, now)[i].id == id;
                    if i < fq.len() {
                        assert(fq[i] == fresh(s, now)[i]);
                    }
                }
                lemma_fresh_keeps_record(q, id, now);
                lemma_position(fq, id);
                lemma_position(q, id);
                assert(fresh(s, now)[position(fq, id)] == fq[position(fq, id)]);
                assert(s[position(q, id)] == q[position(q, id)]);
            }
        }
    }
}

/// A peer that announced itself and then only sent heartbeats stays
/// listed through every sweep, as long as every step falls within the
/// timeout of its announcement: it is never removed.
pub proof fn lemma_live_peer_kept(
    s: Seq<PeerEntry>,
    local: Option<Seq<char>>,
    evs: Seq<DirEvent>,
    host: Seq<char>,
    times: Seq<u64>,
)
    requires
        unique_ids(s),
        evs.len() >= 1,
        times.len() == evs.len(),
        evs[0] matches DirEvent::Message(m) && m is PlayerDiscovery && !is_local(local, m->PlayerDiscovery_player_id@),
        forall|i: int| 1 <= i < evs.len() ==> (#[trigger] evs[i]) is Sweep
            || (evs[i] matches DirEvent::Message(m) && m is Heartbeat
                && m->Heartbeat_player_id@ == evs[0]->Message_0->PlayerDiscovery_player_id@),
        forall|i: int| 0 <= i < times.len() ==> #[trigger] times[i] <= times[0] + PEER_TIMEOUT_MS,
    ensures
        listed(after_events(s, local, evs, host, times), evs[0]->Message_0->PlayerDiscovery_player_id@),
{
    lemma_live_peer_record(s, local, evs, host, times);
}

proof fn lemma_live_peer_record(
    s: Seq<PeerEntry>,
    local: Option<Seq<char>>,
    evs: Seq<DirEvent>,
    host: Seq<char>,
    times: Seq<u64>,
)
    requires
        unique_ids(s),
        evs.len() >= 1,
        times.len() == evs.len(),
        evs[0] matches DirEvent::Message(m) && m is PlayerDiscovery && !is_local(local, m->PlayerDiscovery_player_id@),
        forall|i: int| 1 <= i < evs.len() ==> (#[trigger] evs[i]) is Sweep
            || (evs[i] matches DirEvent::Message(m) && m is Heartbeat
                && m->Heartbeat_player_id@ == evs[0]->Message_0->PlayerDiscovery_player_id@),
        forall|i: int| 0 <= i < times.len() ==> #[trigger] times[i] <= times[0] + PEER_TIMEOUT_MS,
    ensures
        unique_ids(after_events(s, local, evs, host, times)),
        listed(after_events(s, local, evs, host, times), evs[0]->Message_0->PlayerDiscovery_player_id@),
        after_events(s, local, evs, host, times)[position(
            after_events(s, local, evs, host, times),
            evs[0]->Message_0->PlayerDiscovery_player_id@,
        )].last_seen >= times[0],
    decreases evs.len(),
{
    let m0 = evs[0]->Message_0;
    let id = m0->PlayerDiscovery_player_id@;
    if evs.len() == 1 {
        assert(after_events(s, local, evs.drop_last(), host, times.take(0)) == s);
        let e = PeerEntry {
            id,
            name: m0->PlayerDiscovery_player_name@,
            host,
            port: m0->PlayerDiscovery_port,
            last_seen: times[0],
        };
        assert(after_events(s, local, evs, host, times) == upsert_view(s, e));
        lemma_upsert(s, e);
        lemma_position(upsert_view(s, e), id);
    } else {
        let pe = evs.drop_last();
        let pt = times.take(evs.len() - 1);
        assert forall|i: int| 1 <= i < pe.len() implies (#[trigger] pe[i]) is Sweep
            || (pe[i] matches DirEvent::Message(m) && m is Heartbeat
                && m->Heartbeat_player_id@ == pe[0]->Message_0->PlayerDiscovery_player_id@) by {
            assert(pe[i] == evs[i]);
        }
        assert forall|i: int| 0 <= i < pt.len() implies #[trigger] pt[i] <= pt[0] + PEER_TIMEOUT_MS by {
            assert(pt[i] == times[i]);
        }
        lemma_live_peer_record(s, local, pe, host, pt);
        let d = after_events(s, local, pe, host, pt);
        let t = times[evs.len() - 1];
        assert(t <= times[0] + PEER_TIMEOUT_MS);
        lemma_position(d, id);
        match evs.last() {
            DirEvent::Message(m) => {
                assert(evs[evs.len() - 1] == evs.last());
                assert(m is Heartbeat && m->Heartbeat_player_id@ == id);
                assert(after_events(s, local, evs, host, times) == refresh_view(d, id, t));
                lemma_refresh(d, id, t);
            },
            DirEvent::Sweep => {
                assert(after_events(s, local, evs, host, times) == fresh(d, t));
                lemma_fresh_listing(d, t);
                assert(!expired(d[position(d, id)], t));
                lemma_fresh_keeps_record(d, id, t);
            },
        }
    }
}

} // verus!
