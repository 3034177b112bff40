//! The connection registry of the WebSocket server and the decisions of its
//! message loop.

use dashmap::DashMap;

use vstd::prelude::*;
use vstd::std_specs::hash::spec_hash_keys_iter;
use vstd::std_specs::iter::IteratorSpec;

use crate::connection::{check_step, stale_at, wrap_add, zero_stats, ConnectionStateView, RateLimiterView, StatsView};
use crate::room::{RoomError, RoomErrorView, RoomId, RoomManager, RoomView, rooms_joined, rooms_left, rooms_without};
use crate::ConnectionId;

pub use crate::connection::{ConnectionState, ConnectionStats, RateLimiter};

verus! {

broadcast use vstd::std_specs::hash::group_hash_axioms;

/// Rate limit settings.
#[derive(Clone, Copy, Debug)]
pub struct RateLimitConfig {
    /// Messages each connection may send per minute
    pub messages_per_minute: u32,
}

/// Settings of the WebSocket server.
#[derive(Clone, Copy, Debug)]
pub struct WebSocketConfig {
    /// Most connections served at once
    pub max_connections: usize,
    /// Largest text or binary message accepted, in bytes
    pub max_message_size: usize,
    /// Per-connection rate limit, if any
    pub rate_limit: Option<RateLimitConfig>,
    /// Interval between pings, in seconds
    pub ping_interval_secs: u64,
    /// Time without a pong after which a connection is stale, in seconds
    pub idle_timeout_secs: u64,
}

/// The length of a rate limit window, in milliseconds: one minute.
pub open spec fn rate_window_millis() -> u64 {
    60_000
}

/// The limiter a new connection gets under `config`, started at `now`.
pub open spec fn limiter_for(config: WebSocketConfig, now: u64) -> Option<RateLimiterView> {
    match config.rate_limit {
        Some(rl) => Some(
            RateLimiterView {
                message_count: 0,
                window_start: now,
                max_messages: rl.messages_per_minute as usize,
                window_duration: rate_window_millis(),
            },
        ),
        None => None,
    }
}

/// A frame read from a client, as far as the decisions need it: the kind of
/// frame, the length of its payload, and for text whether it parses as a
/// message.
#[derive(Clone, Copy, Debug)]
pub enum IncomingFrame {
    Text { len: usize, parses: bool },
    Binary { len: usize },
    Ping,
    Pong,
    Close,
}

/// What the loop does with a frame that was accepted.
#[derive(Clone, Copy, Debug, PartialEq, Eq, Structural)]
pub enum FrameAction {
    /// Hand the parsed message to the handler registered for its type.
    Dispatch,
    /// Nothing more to do (a binary frame, a ping, a pong, or text that does not parse).
    Done,
}

/// Why a frame ends the connection.
#[derive(Clone, Copy, Debug, PartialEq, Eq, Structural)]
pub enum FrameError {
    RateLimitExceeded,
    MessageTooLarge,
    ClosedByClient,
}

/// The plain model of the registry.
pub struct ManagerView {
    pub config: WebSocketConfig,
    pub connections: Map<ConnectionId, ConnectionStateView>,
    pub limiters: Map<ConnectionId, RateLimiterView>,
    pub rooms: Map<Seq<char>, RoomView>,
    pub connection_count: usize,
}

/// Settles a frame: the limiter, if any, checks it first; then the size
/// limit applies to text and binary frames; text that parses is dispatched.
/// Gives the limiter after the check and the outcome.
pub open spec fn frame_outcome(
    config: WebSocketConfig,
    limiter: Option<RateLimiterView>,
    frame: IncomingFrame,
    now: u64,
) -> (Option<RateLimiterView>, Result<FrameAction, FrameError>) {
    let checked = match limiter {
        Some(l) => Some(check_step(l, now).0),
        None => None,
    };
    let allowed = match limiter {
        Some(l) => check_step(l, now).1,
        None => true,
    };
    if !allowed {
        (checked, Err(FrameError::RateLimitExceeded))
    } else {
        (checked, match frame {
            IncomingFrame::Text { len, parses } => if len > config.max_message_size {
                Err(FrameError::MessageTooLarge)
            } else if parses {
                Ok(FrameAction::Dispatch)
            } else {
                Ok(FrameAction::Done)
            },
            IncomingFrame::Binary { len } => if len > config.max_message_size {
                Err(FrameError::MessageTooLarge)
            } else {
                Ok(FrameAction::Done)
            },
            IncomingFrame::Ping => Ok(FrameAction::Done),
            IncomingFrame::Pong => Ok(FrameAction::Done),
            IncomingFrame::Close => Err(FrameError::ClosedByClient),
        })
    }
}

/// The state of a connection after one of its frames was settled with the
/// outcome `r`: the frame is counted as received; the payload of an accepted
/// binary frame, or of accepted text that parses, is counted in the bytes
/// received; an accepted ping or pong records the time.
pub open spec fn frame_state(
    s: ConnectionStateView,
    frame: IncomingFrame,
    r: Result<FrameAction, FrameError>,
    now: u64,
) -> ConnectionStateView {
    let counted = StatsView { messages_received: wrap_add(s.stats.messages_received, 1), ..s.stats };
    match (r, frame) {
        (Ok(_), IncomingFrame::Text { len, parses }) => if parses {
            ConnectionStateView {
                stats: StatsView { bytes_received: wrap_add(counted.bytes_received, len), ..counted },
                ..s
            }
        } else {
            ConnectionStateView { stats: counted, ..s }
        },
        (Ok(_), IncomingFrame::Binary { len }) => ConnectionStateView {
            stats: StatsView { bytes_received: wrap_add(counted.bytes_received, len), ..counted },
            ..s
        },
        (Ok(_), IncomingFrame::Ping) => ConnectionStateView { last_ping: Some(now), stats: counted, ..s },
        (Ok(_), IncomingFrame::Pong) => ConnectionStateView { last_pong: Some(now), stats: counted, ..s },
        _ => ConnectionStateView { stats: counted, ..s },
    }
}

/// What happens to the message loop after an event.
#[derive(Clone, Copy, Debug, PartialEq, Eq, Structural)]
pub enum LoopStep {
    Continue,
    Close,
}

/// An event of the message loop of one connection.
#[derive(Clone, Copy, Debug)]
pub enum LoopEvent {
    /// A frame arrived and was settled; `ok` tells whether it was accepted.
    FrameSettled { ok: bool },
    /// Reading from the socket failed.
    ReceiveFailed,
    /// The socket has no more frames.
    ReceiveEnded,
    /// An outgoing message was handed to the socket; `ok` tells whether it went
    /// out in time.
    Sent { ok: bool },
    /// The channel of outgoing messages was closed.
    OutgoingClosed,
}

/// The loop goes on after an accepted frame or a sent message, and closes
/// the connection on anything else.
pub open spec fn loop_step(e: LoopEvent) -> LoopStep {
    match e {
        LoopEvent::FrameSettled { ok } => if ok { LoopStep::Continue } else { LoopStep::Close },
        LoopEvent::Sent { ok } => if ok { LoopStep::Continue } else { LoopStep::Close },
        _ => LoopStep::Close,
    }
}

/// Decide how the message loop goes on after an event.
pub fn next_loop_step(e: LoopEvent) -> (s: LoopStep)
    ensures
        s == loop_step(e),
{
    match e {
        LoopEvent::FrameSettled { ok } => if ok { LoopStep::Continue } else { LoopStep::Close },
        LoopEvent::Sent { ok } => if ok { LoopStep::Continue } else { LoopStep::Close },
        LoopEvent::ReceiveFailed => LoopStep::Close,
        LoopEvent::ReceiveEnded => LoopStep::Close,
        LoopEvent::OutgoingClosed => LoopStep::Close,
    }
}

/// Pushing an element that is not yet in a sequence keeps it free of duplicates.
proof fn lemma_push_new<A>(s: Seq<A>, x: A)
    requires
        s.no_duplicates(),
        !s.contains(x),
    ensures
        s.push(x).no_duplicates(),
        forall|y: A| #[trigger] s.push(x).contains(y) <==> s.contains(y) || y == x,
{
    let t = s.push(x);
    assert forall|a: int, b: int| 0 <= a < t.len() && 0 <= b < t.len() && a != b implies t[a] != t[b] by {
        if a < s.len() && b < s.len() {
            assert(s[a] != s[b]);
        } else if a < s.len() {
            assert(s.contains(s[a]));
        } else {
            assert(s.contains(s[b]));
        }
    }
    assert forall|y: A| #[trigger] t.contains(y) <==> s.contains(y) || y == x by {
        if t.contains(y) {
            let j = choose|j: int| 0 <= j < t.len() && t[j] == y;
            if j < s.len() {
                assert(s[j] == y);
            }
        }
        if s.contains(y) {
            let j = choose|j: int| 0 <= j < s.len() && s[j] == y;
            assert(t[j] == y);
        }
        if y == x {
            assert(t[s.len() as int] == y);
        }
    }
}

/// A change to the state of one connection.
pub enum StateChange {
    JoinRoom(RoomId),
    LeaveRoom(RoomId),
    SetUserData(String, String),
    Ping(u64),
    Pong(u64),
}

/// The state after a change, as the state's own operation makes it.
pub open spec fn state_changed(s: ConnectionStateView, change: StateChange) -> ConnectionStateView {
    match change {
        StateChange::JoinRoom(r) => if s.rooms.contains(r@) {
            s
        } else {
            ConnectionStateView { rooms: s.rooms.push(r@), ..s }
        },
        StateChange::LeaveRoom(r) => ConnectionStateView { rooms: s.rooms.filter(|x: Seq<char>| x != r@), ..s },
        StateChange::SetUserData(k, v) => ConnectionStateView { user_data: s.user_data.insert(k@, v@), ..s },
        StateChange::Ping(now) => ConnectionStateView { last_ping: Some(now), ..s },
        StateChange::Pong(now) => ConnectionStateView { last_pong: Some(now), ..s },
    }
}

/// The connections of a registry after `change` to the state of `id`, when
/// `id` is live; otherwise unchanged.
pub open spec fn connections_changed(
    conns: Map<ConnectionId, ConnectionStateView>,
    id: ConnectionId,
    change: StateChange,
) -> Map<ConnectionId, ConnectionStateView> {
    if conns.contains_key(id) {
        conns.insert(id, state_changed(conns[id], change))
    } else {
        conns
    }
}

/// A handle on the state of a connection of a registry. It holds the
/// connection's id; each operation takes the registry and works on the state
/// held there. A handle on a connection that has since closed finds no state.
pub struct ConnectionHandle {
    /// Connection ID
    pub id: ConnectionId,
}

impl ConnectionHandle {
    /// A copy of the state as it stands now; none when the connection closed.
    pub fn state(&self, m: &WebSocketManager) -> (r: Option<ConnectionState>)
        requires
            m.wf(),
        ensures
            r is Some == m@.connections.contains_key(self.id),
            r matches Some(s) ==> s.wf() && s@ == m@.connections[self.id],
    {
        m.state_of(&self.id)
    }

    /// Join a room; a room already joined is not added twice.
    pub fn join_room(&self, m: &mut WebSocketManager, room_id: RoomId)
        requires
            old(m).wf(),
        ensures
            final(m).wf(),
            final(m)@ == (ManagerView {
                connections: connections_changed(old(m)@.connections, self.id, StateChange::JoinRoom(room_id)),
                ..old(m)@
            }),
    {
        m.change_state(self.id, StateChange::JoinRoom(room_id));
    }

    /// Leave a room: every entry of it is dropped from the joined rooms.
    pub fn leave_room(&self, m: &mut WebSocketManager, room_id: RoomId)
        requires
            old(m).wf(),
        ensures
            final(m).wf(),
            final(m)@ == (ManagerView {
                connections: connections_changed(old(m)@.connections, self.id, StateChange::LeaveRoom(room_id)),
                ..old(m)@
            }),
    {
        m.change_state(self.id, StateChange::LeaveRoom(room_id));
    }

    /// Set a user data entry.
    pub fn set_user_data(&self, m: &mut WebSocketManager, key: String, value: String)
        requires
            old(m).wf(),
        ensures
            final(m).wf(),
            final(m)@ == (ManagerView {
                connections: connections_changed(old(m)@.connections, self.id, StateChange::SetUserData(key, value)),
                ..old(m)@
            }),
    {
        m.change_state(self.id, StateChange::SetUserData(key, value));
    }

    /// Record a ping sent at `now`.
    pub fn update_ping_at(&self, m: &mut WebSocketManager, now: u64)
        requires
            old(m).wf(),
        ensures
            final(m).wf(),
            final(m)@ == (ManagerView {
                connections: connections_changed(old(m)@.connections, self.id, StateChange::Ping(now)),
                ..old(m)@
            }),
    {
        m.change_state(self.id, StateChange::Ping(now));
    }

    /// Record a pong received at `now`.
    pub fn update_pong_at(&self, m: &mut WebSocketManager, now: u64)
        requires
            old(m).wf(),
        ensures
            final(m).wf(),
            final(m)@ == (ManagerView {
                connections: connections_changed(old(m)@.connections, self.id, StateChange::Pong(now)),
                ..old(m)@
            }),
    {
        m.change_state(self.id, StateChange::Pong(now));
    }
}

/// The connection states that a connection table holds, by connection id.
pub uninterp spec fn connection_table(m: DashMap<ConnectionId, ConnectionState>) -> Map<ConnectionId, ConnectionState>;

/// The rate limiters that a limiter table holds, by connection id.
pub uninterp spec fn limiter_table(m: DashMap<ConnectionId, RateLimiter>) -> Map<ConnectionId, RateLimiter>;

/// `DashMap::new` for connection states: the contract claims that the new map
/// holds no entry.
#[verifier::external_body]
fn states_new() -> (fresh: DashMap<ConnectionId, ConnectionState>)
    ensures
        connection_table(fresh) =~= Map::empty(),
{
    DashMap::new()
}

/// `DashMap::contains_key` on connection states: the contract claims that the
/// result tells whether an entry with key `k` is present.
#[verifier::external_body]
fn states_contains(m: &DashMap<ConnectionId, ConnectionState>, k: &ConnectionId) -> (b: bool)
    ensures
        b == connection_table(*m).contains_key(*k),
{
    m.contains_key(k)
}

/// `DashMap::insert` on connection states: the contract claims that afterwards
/// `k` maps to `v` and every other entry is unchanged. The previous value that
/// `insert` returns is dropped.
#[verifier::external_body]
fn states_insert(m: &mut DashMap<ConnectionId, ConnectionState>, k: ConnectionId, v: ConnectionState)
    ensures
        connection_table(*final(m)) == connection_table(*old(m)).insert(k, v),
{
    m.insert(k, v);
}

/// `DashMap::remove` on connection states: the contract claims that the entry
/// with key `k`, if any, is taken out and handed back, and every other entry
/// is unchanged.
#[verifier::external_body]
fn states_remove(m: &mut DashMap<ConnectionId, ConnectionState>, k: &ConnectionId) -> (r: Option<ConnectionState>)
    ensures
        connection_table(*final(m)) == connection_table(*old(m)).remove(*k),
        r == (if connection_table(*old(m)).contains_key(*k) {
            Some(connection_table(*old(m))[*k])
        } else {
            None
        }),
{
    m.remove(k).map(|(_, v)| v)
}

/// `DashMap::view` on connection states, handed the verified
/// `ConnectionState::duplicate` as the closure that reads the entry: the
/// contract claims that the result is present exactly when `k` is, and then
/// has the view of the stored state, as that copy ensures.
#[verifier::external_body]
fn states_get(m: &DashMap<ConnectionId, ConnectionState>, k: &ConnectionId) -> (r: Option<ConnectionState>)
    ensures
        r is Some == connection_table(*m).contains_key(*k),
        r matches Some(s) ==> s@ == connection_table(*m)[*k]@ && s.wf() == connection_table(*m)[*k].wf(),
{
    m.view(k, |_, state| state.duplicate())
}

/// `DashMap::iter` on connection states, each entry mapped to its key: the
/// contract claims that every key of the map comes out exactly once. The order
/// is that of the map's shards and hasher, which the contract leaves open.
#[verifier::external_body]
fn states_keys(m: &DashMap<ConnectionId, ConnectionState>) -> (r: Vec<ConnectionId>)
    ensures
        r@.no_duplicates(),
        r@.to_set() == connection_table(*m).dom(),
{
    m.iter().map(|e| *e.key()).collect()
}

/// `DashMap::new` for rate limiters: the contract claims that the new map
/// holds no entry.
#[verifier::external_body]
fn limiters_new() -> (fresh: DashMap<ConnectionId, RateLimiter>)
    ensures
        limiter_table(fresh) =~= Map::empty(),
{
    DashMap::new()
}

/// `DashMap::insert` on rate limiters: the contract claims that afterwards `k`
/// maps to `v` and every other entry is unchanged. The previous value that
/// `insert` returns is dropped.
#[verifier::external_body]
fn limiters_insert(m: &mut DashMap<ConnectionId, RateLimiter>, k: ConnectionId, v: RateLimiter)
    ensures
        limiter_table(*final(m)) == limiter_table(*old(m)).insert(k, v),
{
    m.insert(k, v);
}

/// `DashMap::remove` on rate limiters: the contract claims that the entry with
/// key `k`, if any, is taken out and handed back, and every other entry is
/// unchanged.
#[verifier::external_body]
fn limiters_remove(m: &mut DashMap<ConnectionId, RateLimiter>, k: &ConnectionId) -> (r: Option<RateLimiter>)
    ensures
        limiter_table(*final(m)) == limiter_table(*old(m)).remove(*k),
        r == (if limiter_table(*old(m)).contains_key(*k) {
            Some(limiter_table(*old(m))[*k])
        } else {
            None
        }),
{
    m.remove(k).map(|(_, v)| v)
}

/// WebSocket connection registry: the state of each live connection, its
/// rate limiter, the rooms, and the count of live connections.
pub struct WebSocketManager {
    config: WebSocketConfig,
    connections: DashMap<ConnectionId, ConnectionState>,
    /// Room manager
    pub room_manager: RoomManager,
    connection_count: usize,
    rate_limiters: DashMap<ConnectionId, RateLimiter>,
}

impl View for WebSocketManager {
    type V = ManagerView;

    closed spec fn view(&self) -> ManagerView {
        ManagerView {
            config: self.config,
            connections: self.states().map_values(|s: ConnectionState| s@),
            limiters: self.limits().map_values(|l: RateLimiter| l@),
            rooms: self.room_manager@,
            connection_count: self.connection_count,
        }
    }
}

impl WebSocketManager {
    /// The registry is consistent: every state is well formed and filed under
    /// its own id, limiters belong to live connections, and the count is the
    /// number of live connections.
    pub closed spec fn wf(&self) -> bool {
        &&& self.room_manager.wf()
        &&& self.states().dom().finite()
        &&& forall|c: ConnectionId| #[trigger] self.states().contains_key(c) ==> self.states()[c].wf()
            && self.states()[c]@.id == c
        &&& forall|c: ConnectionId| #[trigger] self.limits().contains_key(c) ==> self.states().contains_key(c)
        &&& self.connection_count == self.states().len()
    }

    /// The stored connection states, by id.
    closed spec fn states(&self) -> Map<ConnectionId, ConnectionState> {
        connection_table(self.connections)
    }

    /// The stored rate limiters, by connection id.
    closed spec fn limits(&self) -> Map<ConnectionId, RateLimiter> {
        limiter_table(self.rate_limiters)
    }

    /// The count is the number of live connections.
    pub proof fn lemma_count(&self)
        requires
            self.wf(),
        ensures
            self@.connection_count == self@.connections.len(),
    {
        assert(self@.connections.dom() =~= self.states().dom());
    }

    /// Only live connections have a rate limiter.
    pub proof fn lemma_limiters_live(&self)
        requires
            self.wf(),
        ensures
            forall|c: ConnectionId| #[trigger] self@.limiters.contains_key(c) ==> self@.connections.contains_key(c),
    {
    }

    /// Add a connection to a room of the registry, creating the room if it
    /// does not exist. A connection already in the room is refused.
    pub fn join_room(&mut self, room_id: RoomId, connection_id: ConnectionId) -> (r: Result<(), RoomError>)
        requires
            old(self).wf(),
        ensures
            final(self).wf(),
            final(self)@ == (ManagerView { rooms: final(self)@.rooms, ..old(self)@ }),
            old(self)@.rooms.contains_key(room_id@) && old(self)@.rooms[room_id@].connections.contains(connection_id) ==> {
                &&& r is Err
                &&& r->Err_0@ == RoomErrorView::ConnectionAlreadyInRoom(connection_id)
                &&& final(self)@.rooms == old(self)@.rooms
            },
            !(old(self)@.rooms.contains_key(room_id@) && old(self)@.rooms[room_id@].connections.contains(connection_id)) ==> {
                &&& r is Ok
                &&& final(self)@.rooms == rooms_joined(old(self)@.rooms, room_id@, connection_id)
            },
    {
        self.room_manager.join_room(room_id, connection_id)
    }

    /// Remove a connection from a room of the registry; a room that this
    /// leaves empty is deleted. An unknown room, or a connection not in the
    /// room, is refused.
    pub fn leave_room(&mut self, room_id: &RoomId, connection_id: &ConnectionId) -> (r: Result<(), RoomError>)
        requires
            old(self).wf(),
        ensures
            final(self).wf(),
            final(self)@ == (ManagerView { rooms: final(self)@.rooms, ..old(self)@ }),
            !old(self)@.rooms.contains_key(room_id@) ==> {
                &&& r is Err
                &&& r->Err_0@ == RoomErrorView::RoomNotFound(room_id@)
                &&& final(self)@.rooms == old(self)@.rooms
            },
            old(self)@.rooms.contains_key(room_id@) && !old(self)@.rooms[room_id@].connections.contains(*connection_id) ==> {
                &&& r is Err
                &&& r->Err_0@ == RoomErrorView::ConnectionNotInRoom(*connection_id)
                &&& final(self)@.rooms == old(self)@.rooms
            },
            old(self)@.rooms.contains_key(room_id@) && old(self)@.rooms[room_id@].connections.contains(*connection_id) ==> {
                &&& r is Ok
                &&& final(self)@.rooms == rooms_left(old(self)@.rooms, room_id@, *connection_id)
            },
    {
        self.room_manager.leave_room(room_id, connection_id)
    }

    /// Create a new manager with no connection and no room.
    pub fn new(config: WebSocketConfig) -> (m: WebSocketManager)
        ensures
            m.wf(),
            m@.config == config,
            m@.connections == Map::<ConnectionId, ConnectionStateView>::empty(),
            m@.limiters == Map::<ConnectionId, RateLimiterView>::empty(),
            m@.rooms == Map::<Seq<char>, RoomView>::empty(),
            m@.connection_count == 0,
    {
        let m = WebSocketManager {
            config,
            connections: states_new(),
            room_manager: RoomManager::new(),
            connection_count: 0,
            rate_limiters: limiters_new(),
        };
        assert(m@.connections =~= Map::<ConnectionId, ConnectionStateView>::empty());
        assert(m@.limiters =~= Map::<ConnectionId, RateLimiterView>::empty());
        assert(m.states() =~= Map::<ConnectionId, ConnectionState>::empty());
        m
    }

    /// The rate limit of each connection, if configured: the number of
    /// messages and the window length in milliseconds.
    pub fn get_rate_limit_config(&self) -> (r: Option<(usize, u64)>)
        ensures
            match limiter_for(self@.config, 0) {
                Some(l) => r == Some((l.max_messages, l.window_duration)),
                None => r is None,
            },
    {
        match self.config.rate_limit {
            Some(rl) => Some((rl.messages_per_minute as usize, 60_000)),
            None => None,
        }
    }

    /// Admit a new connection at time `now`, unless the connection limit is
    /// reached: its state is recorded, it gets a rate limiter if one is
    /// configured, and the count goes up. Gives whether it was admitted.
    pub fn admit_connection(&mut self, connection_id: ConnectionId, addr: String, now: u64) -> (admitted: bool)
        requires
            old(self).wf(),
        ensures
            final(self).wf(),
            admitted == (old(self)@.connection_count < old(self)@.config.max_connections),
            !admitted ==> final(self)@ == old(self)@,
            admitted ==> final(self)@ == (ManagerView {
                connections: old(self)@.connections.insert(
                    connection_id,
                    ConnectionStateView {
                        id: connection_id,
                        addr: addr@,
                        connected_at: now,
                        last_ping: None,
                        last_pong: None,
                        rooms: Seq::empty(),
                        user_data: Map::empty(),
                        stats: zero_stats(),
                    },
                ),
                limiters: match limiter_for(old(self)@.config, now) {
                    Some(l) => old(self)@.limiters.insert(connection_id, l),
                    None => old(self)@.limiters,
                },
                connection_count: if old(self)@.connections.contains_key(connection_id) {
                    old(self)@.connection_count
                } else {
                    (old(self)@.connection_count + 1) as usize
                },
                ..old(self)@
            }),
    {
        if self.connection_count >= self.config.max_connections {
            return false;
        }
        let known = states_contains(&self.connections, &connection_id);
        let state = ConnectionState::new_at(connection_id, addr, now);
        let ghost sv = state@;
        states_insert(&mut self.connections, connection_id, state);
        match self.get_rate_limit_config() {
            Some((max_msgs, window)) => {
                let limiter = RateLimiter::new_at(max_msgs, window, now);
                let ghost lv = limiter@;
                limiters_insert(&mut self.rate_limiters, connection_id, limiter);
                assert(self@.limiters =~= old(self)@.limiters.insert(connection_id, lv));
            },
            None => {
                assert(self@.limiters =~= old(self)@.limiters);
            },
        }
        if !known {
            self.connection_count = self.connection_count + 1;
        }
        proof {
            assert(self@.connections =~= old(self)@.connections.insert(connection_id, sv));
            if known {
                assert(self.states().dom() =~= old(self).states().dom());
            } else {
                assert(self.states().len() == old(self).states().len() + 1);
            }
        }
        true
    }

    /// Close a connection: its state and limiter are dropped, it leaves every
    /// room (rooms left empty are deleted), and the count goes down if it was live.
    pub fn close_connection(&mut self, connection_id: ConnectionId)
        requires
            old(self).wf(),
        ensures
            final(self).wf(),
            final(self)@ == (ManagerView {
                connections: old(self)@.connections.remove(connection_id),
                limiters: old(self)@.limiters.remove(connection_id),
                rooms: rooms_without(old(self)@.rooms, connection_id),
                connection_count: if old(self)@.connections.contains_key(connection_id) {
                    (old(self)@.connection_count - 1) as usize
                } else {
                    old(self)@.connection_count
                },
                ..old(self)@
            }),
    {
        let was_live = states_contains(&self.connections, &connection_id);
        let _ = states_remove(&mut self.connections, &connection_id);
        let _ = limiters_remove(&mut self.rate_limiters, &connection_id);
        self.room_manager.leave_all_rooms(&connection_id);
        if was_live {
            self.connection_count = self.connection_count - 1;
        }
        proof {
            assert(self@.connections =~= old(self)@.connections.remove(connection_id));
            assert(self@.limiters =~= old(self)@.limiters.remove(connection_id));
            if was_live {
                assert(self.states().len() == old(self).states().len() - 1);
            } else {
                assert(self.states() =~= old(self).states());
            }
        }
    }

    /// Settle a frame from a live connection at time `now`: count it as
    /// received, check it against the connection's limiter, apply the size
    /// limit, record the bytes of accepted text that parses and of accepted
    /// binary frames, and record pings and pongs.
    pub fn process_incoming(&mut self, connection_id: ConnectionId, frame: IncomingFrame, now: u64) -> (r:
        Result<FrameAction, FrameError>)
        requires
            old(self).wf(),
            old(self)@.connections.contains_key(connection_id),
        ensures
            final(self).wf(),
            ({
                let lim = if old(self)@.limiters.contains_key(connection_id) {
                    Some(old(self)@.limiters[connection_id])
                } else {
                    None
                };
                let outcome = frame_outcome(old(self)@.config, lim, frame, now);
                let s = old(self)@.connections[connection_id];
                &&& r == outcome.1
                &&& final(self)@.limiters == match outcome.0 {
                    Some(l) => old(self)@.limiters.insert(connection_id, l),
                    None => old(self)@.limiters,
                }
                &&& final(self)@.connections == old(self)@.connections.insert(
                    connection_id,
                    frame_state(s, frame, r, now),
                )
                &&& final(self)@.config == old(self)@.config
                &&& final(self)@.rooms == old(self)@.rooms
                &&& final(self)@.connection_count == old(self)@.connection_count
            }),
    {
        assert(self.states().contains_key(connection_id));
        let mut state = states_remove(&mut self.connections, &connection_id).unwrap();
        state.stats.add_messages_received(1);
        let allowed = match limiters_remove(&mut self.rate_limiters, &connection_id) {
            Some(mut limiter) => {
                let ok = limiter.check_at(now);
                limiters_insert(&mut self.rate_limiters, connection_id, limiter);
                ok
            },
            None => true,
        };
        let r = if !allowed {
            Err(FrameError::RateLimitExceeded)
        } else {
            match frame {
                IncomingFrame::Text { len, parses } => if len > self.config.max_message_size {
                    Err(FrameError::MessageTooLarge)
                } else if parses {
                    state.stats.add_bytes_received(len);
                    Ok(FrameAction::Dispatch)
                } else {
                    Ok(FrameAction::Done)
                },
                IncomingFrame::Binary { len } => if len > self.config.max_message_size {
                    Err(FrameError::MessageTooLarge)
                } else {
                    state.stats.add_bytes_received(len);
                    Ok(FrameAction::Done)
                },
                IncomingFrame::Ping => {
                    state.update_ping_at(now);
                    Ok(FrameAction::Done)
                },
                IncomingFrame::Pong => {
                    state.update_pong_at(now);
                    Ok(FrameAction::Done)
                },
                IncomingFrame::Close => Err(FrameError::ClosedByClient),
            }
        };
        let ghost sv = state@;
        assert(state.wf());
        assert(sv.id == connection_id);
        let ghost lim = if old(self)@.limiters.contains_key(connection_id) {
            Some(old(self)@.limiters[connection_id])
        } else {
            None
        };
        assert(r == frame_outcome(old(self)@.config, lim, frame, now).1);
        assert(sv == frame_state(old(self)@.connections[connection_id], frame, r, now));
        states_insert(&mut self.connections, connection_id, state);
        proof {
            assert(self@.connections =~= old(self)@.connections.insert(connection_id, sv));
            assert(self.states().dom() =~= old(self).states().dom());
            assert(self.states().len() == old(self).states().len());
            if old(self)@.limiters.contains_key(connection_id) {
                assert(self@.limiters =~= old(self)@.limiters.insert(connection_id, self@.limiters[connection_id]));
            } else {
                assert(self@.limiters =~= old(self)@.limiters);
            }
        }
        r
    }

    /// A handle on the state of a live connection. The handle names the
    /// connection; its operations read and change the state held in the
    /// registry, so what is done through one handle is seen through the
    /// registry and every other handle on the connection.
    pub fn get_connection_state(&self, connection_id: &ConnectionId) -> (r: Option<ConnectionHandle>)
        ensures
            r is Some == self@.connections.contains_key(*connection_id),
            r matches Some(h) ==> h.id == *connection_id,
    {
        if states_contains(&self.connections, connection_id) {
            Some(ConnectionHandle { id: *connection_id })
        } else {
            None
        }
    }

    /// Apply a change to the state of connection `id`, if it is live.
    fn change_state(&mut self, id: ConnectionId, change: StateChange)
        requires
            old(self).wf(),
        ensures
            final(self).wf(),
            final(self)@ == (ManagerView {
                connections: if old(self)@.connections.contains_key(id) {
                    old(self)@.connections.insert(id, state_changed(old(self)@.connections[id], change))
                } else {
                    old(self)@.connections
                },
                ..old(self)@
            }),
    {
        match states_remove(&mut self.connections, &id) {
            None => {
                assert(self.states() =~= old(self).states());
                assert(self@.connections =~= old(self)@.connections);
            },
            Some(mut state) => {
                match change {
                    StateChange::JoinRoom(room_id) => state.join_room(room_id),
                    StateChange::LeaveRoom(room_id) => state.leave_room(&room_id),
                    StateChange::SetUserData(key, value) => state.set_user_data(key, value),
                    StateChange::Ping(now) => state.update_ping_at(now),
                    StateChange::Pong(now) => state.update_pong_at(now),
                }
                let ghost sv = state@;
                assert(sv == state_changed(old(self)@.connections[id], change));
                states_insert(&mut self.connections, id, state);
                proof {
                    assert(self@.connections =~= old(self)@.connections.insert(id, sv));
                    assert(self.states().dom() =~= old(self).states().dom());
                }
            },
        }
    }

    /// A copy of the state of a live connection.
    fn state_of(&self, connection_id: &ConnectionId) -> (r: Option<ConnectionState>)
        requires
            self.wf(),
        ensures
            r is Some == self@.connections.contains_key(*connection_id),
            r matches Some(s) ==> s.wf() && s@ == self@.connections[*connection_id],
    {
        let r = states_get(&self.connections, connection_id);
        proof {
            if self.states().contains_key(*connection_id) {
                assert(self.states()[*connection_id].wf());
            }
        }
        r
    }

    /// Whether a connection is live.
    pub fn has_connection(&self, connection_id: &ConnectionId) -> (b: bool)
        ensures
            b == self@.connections.contains_key(*connection_id),
    {
        states_contains(&self.connections, connection_id)
    }

    /// The ids of all live connections, each once, in no particular order.
    pub fn get_connection_ids(&self) -> (r: Vec<ConnectionId>)
        ensures
            r@.no_duplicates(),
            r@.to_set() == self@.connections.dom(),
    {
        let r = states_keys(&self.connections);
        assert(self@.connections.dom() =~= self.states().dom());
        r
    }

    /// The current number of live connections.
    pub fn get_connection_count(&self) -> (n: usize)
        requires
            self.wf(),
        ensures
            n == self@.connection_count,
            n == self@.connections.len(),
    {
        assert(self@.connections.dom() =~= self.states().dom());
        self.connection_count
    }

    /// The ids of the live connections that are stale at `now` under a timeout
    /// of `timeout` milliseconds, each once, in no particular order.
    pub fn stale_connections(&self, timeout: u64, now: u64) -> (r: Vec<ConnectionId>)
        requires
            self.wf(),
        ensures
            r@.no_duplicates(),
            forall|c: ConnectionId| #[trigger] r@.contains(c) <==> self@.connections.contains_key(c) && stale_at(
                self@.connections[c],
                timeout,
                now,
            ),
    {
        let ids = states_keys(&self.connections);
        let ghost keys = ids@;
        let mut r: Vec<ConnectionId> = Vec::new();
        let n = ids.len();
        let mut i: usize = 0;
        while i < n
            invariant
                n == keys.len(),
                keys == ids@,
                keys.to_set() == self.states().dom(),
                keys.no_duplicates(),
                i <= n,
                r@.no_duplicates(),
                forall|x: ConnectionId| #[trigger] r@.contains(x) <==> keys.take(i as int).contains(x)
                    && self.states().contains_key(x) && stale_at(self.states()[x]@, timeout, now),
            decreases n - i,
        {
            let c = ids[i];
            assert(keys.to_set().contains(c));
            let ghost before = r@;
            assert(!keys.take(i as int).contains(c)) by {
                if keys.take(i as int).contains(c) {
                    let j = choose|j: int| 0 <= j < i && keys.take(i as int)[j] == c;
                    assert(keys[j] == keys[i as int]);
                }
            }
            assert(keys.take(i + 1) =~= keys.take(i as int).push(c));
            proof {
                lemma_push_new(keys.take(i as int), c);
            }
            let stale = match states_get(&self.connections, &c) {
                Some(state) => state.is_stale_at(timeout, now),
                None => false,
            };
            if stale {
                proof {
                    lemma_push_new(before, c);
                }
                r.push(c);
            }
            assert forall|x: ConnectionId| #[trigger] r@.contains(x) <==> keys.take(i + 1).contains(x)
                && self.states().contains_key(x) && stale_at(self.states()[x]@, timeout, now) by {
                if x != c && stale {
                    assert(r@.contains(x) == before.contains(x));
                }
            }
            i = i + 1;
        }
        proof {
            assert(keys.take(n as int) =~= keys);
            assert forall|c: ConnectionId| #[trigger] r@.contains(c) <==> self@.connections.contains_key(c)
                && stale_at(self@.connections[c], timeout, now) by {
                if self.states().contains_key(c) {
                    assert(keys.to_set().contains(c));
                }
            }
        }
        r
    }

    /// The live connections of a room, each once, in no particular order: the
    /// connections that a message to the room goes to.
    pub fn broadcast_targets(&self, room_id: &RoomId) -> (r: Vec<ConnectionId>)
        requires
            self.wf(),
        ensures
            r@.no_duplicates(),
            forall|c: ConnectionId| #[trigger] r@.contains(c) <==> self@.rooms.contains_key(room_id@)
                && self@.rooms[room_id@].connections.contains(c) && self@.connections.contains_key(c),
    {
        let members = self.room_manager.get_room_connections(room_id);
        let mut r: Vec<ConnectionId> = Vec::new();
        let ghost keys = spec_hash_keys_iter(&members).remaining().unref();
        for c in it: members.iter()
            invariant
                it.seq().unref() == keys,
                keys.to_set() == members@,
                keys.no_duplicates(),
                it.index() <= keys.len(),
                r@.no_duplicates(),
                forall|x: ConnectionId| #[trigger] r@.contains(x) <==> keys.take(it.index() as int).contains(x)
                    && self.states().contains_key(x),
        {
            let ghost i = it.index() as int;
            assert(keys[i] == *c);
            let ghost before = r@;
            assert(!keys.take(i).contains(*c)) by {
                if keys.take(i).contains(*c) {
                    let j = choose|j: int| 0 <= j < i && keys.take(i)[j] == *c;
                    assert(keys[j] == keys[i]);
                }
            }
            assert(keys.take(i + 1) =~= keys.take(i).push(*c));
            proof {
                lemma_push_new(keys.take(i), *c);
            }
            let live = states_contains(&self.connections, c);
            if live {
                proof {
                    lemma_push_new(before, *c);
                }
                r.push(*c);
            }
            assert forall|x: ConnectionId| #[trigger] r@.contains(x) <==> keys.take(i + 1).contains(x)
                && self.states().contains_key(x) by {
                if x != *c && live {
                    assert(r@.contains(x) == before.contains(x));
                }
            }
        }
        proof {
            assert(keys.take(keys.len() as int) =~= keys);
            assert forall|c: ConnectionId| #[trigger] r@.contains(c) <==> self@.rooms.contains_key(room_id@)
                && self@.rooms[room_id@].connections.contains(c) && self@.connections.contains_key(c) by {
                if members@.contains(c) {
                    assert(keys.to_set().contains(c));
                }
            }
        }
        r
    }
}

} // verus!
