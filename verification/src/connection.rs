//! The state of one connection, its statistics and its rate limiter.

use vstd::prelude::*;

use crate::room::RoomId;
use crate::strmap::StrMap;
use crate::text::{copy_strings, str_equal};
use crate::ConnectionId;

verus! {

/// `std::time::SystemTime`, a reading of the system clock.
#[verifier::external_type_specification]
#[verifier::external_body]
pub struct ExSystemTime(std::time::SystemTime);

/// `std::time::SystemTime::now`: the system clock now. Nothing is claimed of it.
#[verifier::external_body]
fn system_now() -> (t: std::time::SystemTime)
{
    std::time::SystemTime::now()
}

/// `SystemTime::duration_since` with `UNIX_EPOCH`: the time from the UNIX
/// epoch to `t`, or `None` when `t` stands before the epoch. Nothing is
/// claimed of it: it depends on the clock reading.
#[verifier::external_body]
fn since_epoch(t: &std::time::SystemTime) -> (d: Option<std::time::Duration>)
{
    t.duration_since(std::time::UNIX_EPOCH).ok()
}

/// `Duration::as_millis`: the whole milliseconds of `d`. Nothing is claimed
/// of it here: `d` is only ever a clock reading.
#[verifier::external_body]
fn whole_millis(d: &std::time::Duration) -> (m: u128)
{
    d.as_millis()
}

/// `s` can be a count of whole seconds read off the 64-bit millisecond clock:
/// it is at most the whole seconds of the largest such reading.
pub open spec fn seconds_reading(s: u64) -> bool {
    s <= u64::MAX / 1000
}

/// The current UNIX time in whole seconds, or none when the clock stands
/// before the epoch: the millisecond reading, cut to 64 bits, in whole seconds.
pub fn clock_secs() -> (r: Option<u64>)
    ensures
        r matches Some(s) ==> seconds_reading(s),
{
    match since_epoch(&system_now()) {
        Some(d) => {
            let m = whole_millis(&d);
            let millis: u64 = #[verifier::truncate]
            (m as u64);
            Some(millis / 1000)
        },
        None => None,
    }
}

/// The current time in milliseconds since the UNIX epoch, cut to 64 bits;
/// 0 when the clock stands before the epoch.
fn clock_millis() -> u64 {
    match since_epoch(&system_now()) {
        Some(d) => {
            let m = whole_millis(&d);
            #[verifier::truncate]
            (m as u64)
        },
        None => 0,
    }
}

/// Time elapsed from `from` to `to`, zero when `to` is earlier.
pub open spec fn elapsed(from: u64, to: u64) -> nat {
    if to >= from {
        (to - from) as nat
    } else {
        0
    }
}

/// Connection statistics. The counters wrap around at the `usize` range.
#[derive(Clone, Copy, Debug)]
pub struct ConnectionStats {
    /// Messages sent
    pub messages_sent: usize,
    /// Messages received
    pub messages_received: usize,
    /// Bytes sent
    pub bytes_sent: usize,
    /// Bytes received
    pub bytes_received: usize,
}

/// The plain model of connection statistics.
pub struct StatsView {
    pub messages_sent: usize,
    pub messages_received: usize,
    pub bytes_sent: usize,
    pub bytes_received: usize,
}

/// Statistics with every counter at zero.
pub open spec fn zero_stats() -> StatsView {
    StatsView { messages_sent: 0, messages_received: 0, bytes_sent: 0, bytes_received: 0 }
}

impl View for ConnectionStats {
    type V = StatsView;

    open spec fn view(&self) -> StatsView {
        StatsView {
            messages_sent: self.messages_sent,
            messages_received: self.messages_received,
            bytes_sent: self.bytes_sent,
            bytes_received: self.bytes_received,
        }
    }
}

impl Default for ConnectionStats {
    fn default() -> (s: Self)
        ensures
            s@ == zero_stats(),
    {
        ConnectionStats { messages_sent: 0, messages_received: 0, bytes_sent: 0, bytes_received: 0 }
    }
}

/// `a + b` wrapped around the `usize` range.
pub open spec fn wrap_add(a: usize, b: usize) -> usize {
    if a + b <= usize::MAX {
        (a + b) as usize
    } else {
        (a + b - usize::MAX - 1) as usize
    }
}

/// Adds with wrap-around, as an atomic counter does.
pub fn counter_add(a: usize, b: usize) -> (r: usize)
    ensures
        r == wrap_add(a, b),
{
    if b <= usize::MAX - a {
        a + b
    } else {
        b - (usize::MAX - a) - 1
    }
}

impl ConnectionStats {
    /// Count `n` more messages sent.
    pub fn add_messages_sent(&mut self, n: usize)
        ensures
            final(self)@ == (StatsView { messages_sent: wrap_add(old(self).messages_sent, n), ..old(self)@ }),
    {
        self.messages_sent = counter_add(self.messages_sent, n);
    }

    /// Count `n` more messages received.
    pub fn add_messages_received(&mut self, n: usize)
        ensures
            final(self)@ == (StatsView { messages_received: wrap_add(old(self).messages_received, n), ..old(self)@ }),
    {
        self.messages_received = counter_add(self.messages_received, n);
    }

    /// Count `n` more bytes sent.
    pub fn add_bytes_sent(&mut self, n: usize)
        ensures
            final(self)@ == (StatsView { bytes_sent: wrap_add(old(self).bytes_sent, n), ..old(self)@ }),
    {
        self.bytes_sent = counter_add(self.bytes_sent, n);
    }

    /// Count `n` more bytes received.
    pub fn add_bytes_received(&mut self, n: usize)
        ensures
            final(self)@ == (StatsView { bytes_received: wrap_add(old(self).bytes_received, n), ..old(self)@ }),
    {
        self.bytes_received = counter_add(self.bytes_received, n);
    }
}

/// The plain model of a rate limiter.
pub struct RateLimiterView {
    pub message_count: usize,
    pub window_start: u64,
    pub max_messages: usize,
    pub window_duration: u64,
}

/// The state of a limiter after a check at `now`, and the check's answer:
/// an elapsed window starts afresh at `now`; the check is counted, and it
/// passes when fewer than the maximum had been counted in the window before it.
pub open spec fn check_step(s: RateLimiterView, now: u64) -> (RateLimiterView, bool) {
    let fresh = elapsed(s.window_start, now) >= s.window_duration;
    let start = if fresh { now } else { s.window_start };
    let count = if fresh { 0usize } else { s.message_count };
    (RateLimiterView { message_count: wrap_add(count, 1), window_start: start, ..s }, count < s.max_messages)
}

/// Rate limiter for connections: at most `max_messages` messages per window
/// of `window_duration` milliseconds.
#[derive(Debug)]
pub struct RateLimiter {
    message_count: usize,
    window_start: u64,
    max_messages: usize,
    window_duration: u64,
}

impl View for RateLimiter {
    type V = RateLimiterView;

    closed spec fn view(&self) -> RateLimiterView {
        RateLimiterView {
            message_count: self.message_count,
            window_start: self.window_start,
            max_messages: self.max_messages,
            window_duration: self.window_duration,
        }
    }
}

impl RateLimiter {
    /// A limiter whose first window starts now.
    pub fn new(max_messages: usize, window_duration: u64) -> (r: RateLimiter)
        ensures
            r@.message_count == 0,
            r@.max_messages == max_messages,
            r@.window_duration == window_duration,
    {
        Self::new_at(max_messages, window_duration, clock_millis())
    }

    /// A limiter whose first window starts at `now`.
    pub fn new_at(max_messages: usize, window_duration: u64, now: u64) -> (r: RateLimiter)
        ensures
            r@ == (RateLimiterView {
                message_count: 0,
                window_start: now,
                max_messages,
                window_duration,
            }),
    {
        RateLimiter { message_count: 0, window_start: now, max_messages, window_duration }
    }

    /// Check if a message is allowed under the rate limit now.
    pub fn check(&mut self) -> (allowed: bool)
        ensures
            final(self)@.max_messages == old(self)@.max_messages,
            final(self)@.window_duration == old(self)@.window_duration,
            exists|now: u64| (#[trigger] check_step(old(self)@, now)) == (final(self)@, allowed),
    {
        let now = clock_millis();
        let r = self.check_at(now);
        assert(check_step(old(self)@, now) == (self@, r));
        r
    }

    /// Check if a message is allowed under the rate limit at time `now`.
    pub fn check_at(&mut self, now: u64) -> (allowed: bool)
        ensures
            (final(self)@, allowed) == check_step(old(self)@, now),
    {
        let since = if now >= self.window_start {
            now - self.window_start
        } else {
            0
        };
        if since >= self.window_duration {
            self.window_start = now;
            self.message_count = 0;
        }
        let count = self.message_count;
        self.message_count = counter_add(self.message_count, 1);
        count < self.max_messages
    }

    /// Reset the rate limiter: a new, empty window starts now.
    pub fn reset(&mut self)
        ensures
            final(self)@.message_count == 0,
            final(self)@.max_messages == old(self)@.max_messages,
            final(self)@.window_duration == old(self)@.window_duration,
    {
        self.reset_at(clock_millis());
    }

    /// Reset the rate limiter: a new, empty window starts at `now`.
    pub fn reset_at(&mut self, now: u64)
        ensures
            final(self)@ == (RateLimiterView { message_count: 0, window_start: now, ..old(self)@ }),
    {
        self.message_count = 0;
        self.window_start = now;
    }
}

/// The plain model of a connection's state.
pub struct ConnectionStateView {
    pub id: ConnectionId,
    pub addr: Seq<char>,
    pub connected_at: u64,
    pub last_ping: Option<u64>,
    pub last_pong: Option<u64>,
    pub rooms: Seq<Seq<char>>,
    pub user_data: Map<Seq<char>, Seq<char>>,
    pub stats: StatsView,
}

/// A connection is stale at `now` when more than `timeout` milliseconds have
/// passed since its last pong, or, before any pong, since it connected.
pub open spec fn stale_at(s: ConnectionStateView, timeout: u64, now: u64) -> bool {
    match s.last_pong {
        Some(p) => elapsed(p, now) > timeout,
        None => elapsed(s.connected_at, now) > timeout,
    }
}

/// WebSocket connection state.
#[derive(Debug)]
pub struct ConnectionState {
    /// Connection ID
    pub id: ConnectionId,
    /// Client address
    pub addr: String,
    /// Connection start time, in milliseconds
    pub connected_at: u64,
    /// Last ping time, in milliseconds
    pub last_ping: Option<u64>,
    /// Last pong time, in milliseconds
    pub last_pong: Option<u64>,
    /// Joined rooms
    pub rooms: Vec<RoomId>,
    /// User data associated with connection
    pub user_data: StrMap,
    /// Connection statistics
    pub stats: ConnectionStats,
}

impl View for ConnectionState {
    type V = ConnectionStateView;

    open spec fn view(&self) -> ConnectionStateView {
        ConnectionStateView {
            id: self.id,
            addr: self.addr@,
            connected_at: self.connected_at,
            last_ping: self.last_ping,
            last_pong: self.last_pong,
            rooms: self.rooms@.map_values(|r: String| r@),
            user_data: self.user_data@,
            stats: self.stats@,
        }
    }
}

impl ConnectionState {
    /// A copy of the state, field by field.
    pub fn duplicate(&self) -> (r: Self)
        ensures
            r@ == self@,
            r.wf() == self.wf(),
    {
        ConnectionState {
            id: self.id,
            addr: self.addr.clone(),
            connected_at: self.connected_at,
            last_ping: self.last_ping,
            last_pong: self.last_pong,
            rooms: copy_strings(&self.rooms),
            user_data: self.user_data.clone(),
            stats: self.stats,
        }
    }
}

impl ConnectionState {
    /// The user data map is well formed.
    pub open spec fn wf(&self) -> bool {
        self.user_data.wf()
    }

    /// Create a new connection state, connected now.
    pub fn new(id: ConnectionId, addr: String) -> (s: ConnectionState)
        ensures
            s.wf(),
            s@.id == id,
            s@.addr == addr@,
            s@.last_ping is None,
            s@.last_pong is None,
            s@.rooms == Seq::<Seq<char>>::empty(),
            s@.user_data == Map::<Seq<char>, Seq<char>>::empty(),
            s@.stats == zero_stats(),
    {
        Self::new_at(id, addr, clock_millis())
    }

    /// Create a new connection state, connected at `now`.
    pub fn new_at(id: ConnectionId, addr: String, now: u64) -> (s: ConnectionState)
        ensures
            s.wf(),
            s@ == (ConnectionStateView {
                id,
                addr: addr@,
                connected_at: now,
                last_ping: None,
                last_pong: None,
                rooms: Seq::empty(),
                user_data: Map::empty(),
                stats: zero_stats(),
            }),
    {
        let s = ConnectionState {
            id,
            addr,
            connected_at: now,
            last_ping: None,
            last_pong: None,
            rooms: Vec::new(),
            user_data: StrMap::new(),
            stats: ConnectionStats::default(),
        };
        assert(s@.rooms =~= Seq::<Seq<char>>::empty());
        s
    }

    /// Check if the connection is stale now (no pong received for a while).
    pub fn is_stale(&self, timeout: u64) -> (b: bool)
        ensures
            exists|now: u64| b == #[trigger] stale_at(self@, timeout, now),
    {
        let now = clock_millis();
        self.is_stale_at(timeout, now)
    }

    /// Check if the connection is stale at time `now`.
    pub fn is_stale_at(&self, timeout: u64, now: u64) -> (b: bool)
        ensures
            b == stale_at(self@, timeout, now),
    {
        let since = match self.last_pong {
            Some(p) => p,
            None => self.connected_at,
        };
        let elapsed = if now >= since {
            now - since
        } else {
            0
        };
        elapsed > timeout
    }

    /// Update the ping timestamp to now.
    pub fn update_ping(&mut self)
        requires
            old(self).wf(),
        ensures
            final(self).wf(),
            final(self)@.last_ping is Some,
            final(self)@ == (ConnectionStateView { last_ping: final(self)@.last_ping, ..old(self)@ }),
    {
        self.update_ping_at(clock_millis());
    }

    /// Update the ping timestamp to `now`.
    pub fn update_ping_at(&mut self, now: u64)
        requires
            old(self).wf(),
        ensures
            final(self).wf(),
            final(self)@ == (ConnectionStateView { last_ping: Some(now), ..old(self)@ }),
    {
        self.last_ping = Some(now);
    }

    /// Update the pong timestamp to now.
    pub fn update_pong(&mut self)
        requires
            old(self).wf(),
        ensures
            final(self).wf(),
            final(self)@.last_pong is Some,
            final(self)@ == (ConnectionStateView { last_pong: final(self)@.last_pong, ..old(self)@ }),
    {
        self.update_pong_at(clock_millis());
    }

    /// Update the pong timestamp to `now`.
    pub fn update_pong_at(&mut self, now: u64)
        requires
            old(self).wf(),
        ensures
            final(self).wf(),
            final(self)@ == (ConnectionStateView { last_pong: Some(now), ..old(self)@ }),
    {
        self.last_pong = Some(now);
    }

    /// Join a room; a room already joined is not added twice.
    pub fn join_room(&mut self, room_id: RoomId)
        requires
            old(self).wf(),
        ensures
            final(self).wf(),
            old(self)@.rooms.contains(room_id@) ==> final(self)@ == old(self)@,
            !old(self)@.rooms.contains(room_id@) ==> final(self)@ == (ConnectionStateView {
                rooms: old(self)@.rooms.push(room_id@),
                ..old(self)@
            }),
    {
        let ghost rooms = self.rooms@.map_values(|r: String| r@);
        let n = self.rooms.len();
        let mut i: usize = 0;
        while i < n
            invariant
                n == self.rooms@.len(),
                rooms == self.rooms@.map_values(|r: String| r@),
                self.wf(),
                i <= n,
                forall|j: int| 0 <= j < i ==> #[trigger] rooms[j] != room_id@,
            decreases n - i,
        {
            if self.rooms[i] == room_id {
                assert(rooms[i as int] == room_id@);
                return;
            }
            i = i + 1;
        }
        let ghost added = room_id@;
        self.rooms.push(room_id);
        assert(self@.rooms =~= rooms.push(added));
    }

    /// Leave a room: every entry of it is dropped from the joined rooms.
    pub fn leave_room(&mut self, room_id: &RoomId)
        requires
            old(self).wf(),
        ensures
            final(self).wf(),
            final(self)@ == (ConnectionStateView {
                rooms: old(self)@.rooms.filter(|r: Seq<char>| r != room_id@),
                ..old(self)@
            }),
    {
        let ghost rooms = self.rooms@.map_values(|r: String| r@);
        let ghost keep = |r: Seq<char>| r != room_id@;
        let n = self.rooms.len();
        let mut kept: Vec<RoomId> = Vec::new();
        let mut i: usize = 0;
        while i < n
            invariant
                n == self.rooms@.len(),
                rooms == self.rooms@.map_values(|r: String| r@),
                keep == (|r: Seq<char>| r != room_id@),
                i <= n,
                kept@.map_values(|r: String| r@) == rooms.subrange(0, i as int).filter(keep),
            decreases n - i,
        {
            let ghost before = kept@.map_values(|r: String| r@);
            if !(self.rooms[i] == *room_id) {
                kept.push(self.rooms[i].clone());
                assert(kept@.map_values(|r: String| r@) =~= before.push(rooms[i as int]));
            }
            proof {
                let next = rooms.subrange(0, i + 1);
                assert(next.drop_last() =~= rooms.subrange(0, i as int));
                reveal_with_fuel(Seq::filter, 1);
            }
            i = i + 1;
        }
        assert(rooms.subrange(0, n as int) =~= rooms);
        self.rooms = kept;
    }

    /// Set a user data entry.
    pub fn set_user_data(&mut self, key: String, value: String)
        requires
            old(self).wf(),
        ensures
            final(self).wf(),
            final(self)@ == (ConnectionStateView {
                user_data: old(self)@.user_data.insert(key@, value@),
                ..old(self)@
            }),
    {
        self.user_data.insert(key, value);
    }

    /// Get a user data entry.
    pub fn get_user_data(&self, key: &str) -> (r: Option<String>)
        requires
            self.wf(),
        ensures
            match r {
                Some(v) => self@.user_data.contains_key(key@) && v@ == self@.user_data[key@],
                None => !self@.user_data.contains_key(key@),
            },
    {
        self.user_data.get(key)
    }

    /// Whether the user data is empty.
    pub fn user_data_is_empty(&self) -> (b: bool)
        requires
            self.wf(),
        ensures
            b == (self@.user_data.len() == 0),
    {
        self.user_data.len() == 0
    }
}

} // verus!
