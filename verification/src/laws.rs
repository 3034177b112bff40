//! Properties that relate several operations of the library.

use vstd::prelude::*;

use crate::auth::{
    access_decision, checked_at, checked_token_at, expiry_leeway, fresh_claims, grants_room, hs256_accepts,
    hs256_decoded, refuses_expired_issued, token_issued_at, validates_issued, wildcard_room, AuthErrorView, AuthInfoView, AuthService,
};
use crate::claims::claims_json;
use crate::connection::{check_step, elapsed, stale_at, ConnectionStateView, RateLimiterView};
use crate::room::{room_with, room_without, rooms_joined, rooms_left, rooms_without, RoomView};
use crate::manager::{frame_outcome, FrameAction, FrameError, IncomingFrame, WebSocketConfig};
use crate::ConnectionId;

verus! {

/// A connection that joins a room and then leaves it leaves the room as it was.
pub proof fn lemma_room_join_then_leave(room: RoomView, c: ConnectionId)
    requires
        !room.connections.contains(c),
    ensures
        (RoomView { connections: room.connections.insert(c).remove(c), ..room }) == room,
{
    assert(room.connections.insert(c).remove(c) =~= room.connections);
}

/// Joining an existing room through a handle on it changes the registry as
/// joining the room through the registry does.
pub proof fn lemma_handle_join_is_registry_join(rooms: Map<Seq<char>, RoomView>, id: Seq<char>, c: ConnectionId)
    requires
        rooms.contains_key(id),
    ensures
        room_with(rooms, id, c) == rooms_joined(rooms, id, c),
{
}

/// A connection that joins a room through a handle and leaves it through
/// another handle on the same room leaves the registry as it was.
pub proof fn lemma_handle_join_then_leave(rooms: Map<Seq<char>, RoomView>, id: Seq<char>, c: ConnectionId)
    requires
        rooms.contains_key(id),
        !rooms[id].connections.contains(c),
    ensures
        room_without(room_with(rooms, id, c), id, c) == rooms,
{
    assert(rooms[id].connections.insert(c).remove(c) =~= rooms[id].connections);
    assert(room_without(room_with(rooms, id, c), id, c) =~= rooms);
}

/// Joining an unknown room creates it, and leaving it again deletes it: the
/// rooms are as before.
pub proof fn lemma_join_then_leave_new_room(rooms: Map<Seq<char>, RoomView>, id: Seq<char>, c: ConnectionId)
    requires
        !rooms.contains_key(id),
    ensures
        rooms_left(rooms_joined(rooms, id, c), id, c) == rooms,
{
    let joined = rooms_joined(rooms, id, c);
    assert(joined[id].connections.remove(c) =~= Set::<ConnectionId>::empty());
    assert(rooms_left(joined, id, c) =~= rooms);
}

/// Joining a room that others are in and leaving it again gives back the
/// rooms as before.
pub proof fn lemma_join_then_leave_occupied_room(rooms: Map<Seq<char>, RoomView>, id: Seq<char>, c: ConnectionId)
    requires
        rooms.contains_key(id),
        !rooms[id].connections.contains(c),
        !rooms[id].connections.is_empty(),
    ensures
        rooms_left(rooms_joined(rooms, id, c), id, c) == rooms,
{
    let joined = rooms_joined(rooms, id, c);
    assert(joined[id].connections.remove(c) =~= rooms[id].connections);
    assert(rooms_left(joined, id, c) =~= rooms);
}

/// A room that is created and then deleted leaves the rooms as before.
pub proof fn lemma_create_then_delete_room(rooms: Map<Seq<char>, RoomView>, id: Seq<char>, room: RoomView)
    requires
        !rooms.contains_key(id),
    ensures
        rooms.insert(id, room).remove(id) == rooms,
{
    assert(rooms.insert(id, room).remove(id) =~= rooms);
}

/// After a connection left all rooms, no room holds it, no room was added,
/// and the rooms that did not hold it are unchanged.
pub proof fn lemma_leave_all_rooms(rooms: Map<Seq<char>, RoomView>, c: ConnectionId)
    ensures
        forall|k: Seq<char>| #[trigger] rooms_without(rooms, c).contains_key(k) ==> rooms.contains_key(k)
            && !rooms_without(rooms, c)[k].connections.contains(c),
        forall|k: Seq<char>|
            rooms.contains_key(k) && !rooms[k].connections.contains(c) ==> #[trigger] rooms_without(
                rooms,
                c,
            ).contains_key(k) && rooms_without(rooms, c)[k] == rooms[k],
{
    assert forall|k: Seq<char>|
        rooms.contains_key(k) && !rooms[k].connections.contains(c) implies #[trigger] rooms_without(
            rooms,
            c,
        ).contains_key(k) && rooms_without(rooms, c)[k] == rooms[k] by {
        assert(rooms[k].connections.remove(c) =~= rooms[k].connections);
    }
}

/// A metadata or user data entry that was set is read back as set, and the
/// other entries are untouched.
pub proof fn lemma_entry_read_back(m: Map<Seq<char>, Seq<char>>, k: Seq<char>, v: Seq<char>)
    ensures
        m.insert(k, v).contains_key(k),
        m.insert(k, v)[k] == v,
        forall|j: Seq<char>| j != k ==> (#[trigger] m.insert(k, v).contains_key(j) == m.contains_key(j)) && (
        m.contains_key(j) ==> m.insert(k, v)[j] == m[j]),
{
}

/// A session that was stored is read back as stored, and storing then
/// removing a session is the same as removing it.
pub proof fn lemma_session_round_trip(
    sessions: Map<ConnectionId, AuthInfoView>,
    c: ConnectionId,
    info: AuthInfoView,
)
    ensures
        sessions.insert(c, info).contains_key(c),
        sessions.insert(c, info)[c] == info,
        sessions.insert(c, info).remove(c) == sessions.remove(c),
{
    assert(sessions.insert(c, info).remove(c) =~= sessions.remove(c));
}

/// A connection without a session may enter any room, and one whose allowed
/// rooms hold the wildcard may enter any room too.
pub proof fn lemma_room_access_allowed(sessions: Map<ConnectionId, AuthInfoView>, c: ConnectionId, room: Seq<char>)
    requires
        !sessions.contains_key(c) || sessions[c].allowed_rooms.contains(wildcard_room()),
    ensures
        access_decision(sessions, c, room) is Ok,
{
    if sessions.contains_key(c) {
        let allowed = sessions[c].allowed_rooms;
        let i = choose|i: int| 0 <= i < allowed.len() && allowed[i] == wildcard_room();
        assert(allowed[i] == wildcard_room());
        assert(grants_room(allowed, room));
    }
}

/// The limiter state and answers after a series of checks at the given times.
pub open spec fn run_checks(s: RateLimiterView, times: Seq<u64>) -> (RateLimiterView, Seq<bool>)
    decreases times.len(),
{
    if times.len() == 0 {
        (s, Seq::empty())
    } else {
        let (next, allowed) = check_step(s, times[0]);
        let (last, rest) = run_checks(next, times.drop_first());
        (last, seq![allowed] + rest)
    }
}

/// The number of passing answers in a series.
pub open spec fn passed(answers: Seq<bool>) -> nat
    decreases answers.len(),
{
    if answers.len() == 0 {
        0
    } else {
        (if answers[0] { 1nat } else { 0nat }) + passed(answers.drop_first())
    }
}

/// Within one window, a limiter lets at most `max_messages` messages pass,
/// counting those it had already let through in the window. (The message count
/// must not wrap around the `usize` range during the series.)
pub proof fn lemma_rate_limit_budget(s: RateLimiterView, times: Seq<u64>)
    requires
        s.message_count + times.len() <= usize::MAX,
        forall|i: int| 0 <= i < times.len() ==> elapsed(s.window_start, #[trigger] times[i]) < s.window_duration,
    ensures
        passed(run_checks(s, times).1) + s.message_count <= s.max_messages || passed(run_checks(s, times).1) == 0,
        passed(run_checks(s, times).1) <= times.len(),
    decreases times.len(),
{
    if times.len() > 0 {
        let (next, allowed) = check_step(s, times[0]);
        assert(elapsed(s.window_start, times[0]) < s.window_duration);
        assert(next.message_count == s.message_count + 1);
        assert(next.window_start == s.window_start);
        let rest = times.drop_first();
        assert forall|i: int| 0 <= i < rest.len() implies elapsed(next.window_start, #[trigger] rest[i])
            < next.window_duration by {
            assert(rest[i] == times[i + 1]);
        }
        lemma_rate_limit_budget(next, rest);
        let answers = run_checks(s, times).1;
        assert(answers.drop_first() =~= run_checks(next, rest).1);
    }
}

/// Once the window of a limiter has elapsed, a check starts a new window and
/// passes (when the limit allows any message at all).
pub proof fn lemma_rate_limit_new_window(s: RateLimiterView, now: u64)
    requires
        elapsed(s.window_start, now) >= s.window_duration,
        s.max_messages > 0,
    ensures
        check_step(s, now).1,
        check_step(s, now).0.window_start == now,
        check_step(s, now).0.message_count == 1,
{
}

/// A connection that answered a ping at `now` is not stale at `now`.
pub proof fn lemma_fresh_pong_not_stale(s: ConnectionStateView, timeout: u64, now: u64)
    ensures
        !stale_at(ConnectionStateView { last_pong: Some(now), ..s }, timeout, now),
{
}

/// Joining a room keeps the list of joined rooms free of duplicates, and
/// leaving a room removes every entry of it.
pub proof fn lemma_joined_rooms_distinct(rooms: Seq<Seq<char>>, r: Seq<char>)
    requires
        rooms.no_duplicates(),
    ensures
        (if rooms.contains(r) { rooms } else { rooms.push(r) }).no_duplicates(),
        !rooms.filter(|x: Seq<char>| x != r).contains(r),
{
    if !rooms.contains(r) {
        let t = rooms.push(r);
        assert forall|a: int, b: int| 0 <= a < t.len() && 0 <= b < t.len() && a != b implies t[a] != t[b] by {
            if a < rooms.len() && b < rooms.len() {
                assert(rooms[a] != rooms[b]);
            } else if a < rooms.len() {
                assert(rooms.contains(rooms[a]));
            } else {
                assert(rooms.contains(rooms[b]));
            }
        }
    }
    let f = |x: Seq<char>| x != r;
    if rooms.filter(f).contains(r) {
        let i = choose|i: int| 0 <= i < rooms.filter(f).len() && rooms.filter(f)[i] == r;
        assert(f(rooms.filter(f)[i]));
    }
}

/// A token issued under a secret passes the HS256 check under that secret,
/// and the claims that a check of it gives back are the claims that were
/// issued.
pub proof fn lemma_token_round_trip(
    secret: Seq<char>,
    user_id: Seq<char>,
    rooms: Seq<Seq<char>>,
    metadata: Seq<(Seq<char>, Seq<char>)>,
    exp_seconds: u64,
    issued: u64,
    token: Seq<char>,
    claims: Seq<char>,
)
    requires
        token_issued_at(secret, user_id, rooms, metadata, exp_seconds, issued, Ok(token)),
        claims == crate::auth::jwt_claims_text(token),
    ensures
        hs256_accepts(secret, token),
        claims == claims_json(fresh_claims(user_id, rooms, metadata, issued, exp_seconds)),
{
}

/// Two services with the same secret, such as a service and its clone, give
/// every token the same answer at the same time.
pub proof fn lemma_same_secret_same_answer(a: AuthService, b: AuthService, token: Seq<char>, now: u64)
    requires
        a.secret() == b.secret(),
    ensures
        checked_at(hs256_decoded(a.secret(), token), now) == checked_at(hs256_decoded(b.secret(), token), now),
{
}

/// A token issued under a secret for claims without custom metadata passes a
/// check under that secret at any time up to the leeway past its expiry, and
/// the check gives back the issued claims.
pub proof fn lemma_issued_token_validates(
    secret: Seq<char>,
    user_id: Seq<char>,
    rooms: Seq<Seq<char>>,
    exp_seconds: u64,
    issued: u64,
    token: Seq<char>,
    now: u64,
    r: Result<Seq<char>, AuthErrorView>,
)
    requires
        token_issued_at(secret, user_id, rooms, Seq::empty(), exp_seconds, issued, Ok(token)),
        checked_token_at(secret, token, now, r),
        now <= issued + exp_seconds + expiry_leeway(),
    ensures
        r == Ok::<Seq<char>, AuthErrorView>(claims_json(fresh_claims(user_id, rooms, Seq::empty(), issued, exp_seconds))),
{
    let c = fresh_claims(user_id, rooms, Seq::empty(), issued, exp_seconds);
    assert(crate::auth::hs256_encoded(secret, claims_json(c)) == Ok::<Seq<char>, Seq<char>>(token));
    assert(validates_issued(secret, token, now, r));
}

/// A token issued by one service passes the check of another service with
/// the same secret, such as its clone, and gives back the issued claims.
pub proof fn lemma_same_secret_accepts_issued(
    a: AuthService,
    b: AuthService,
    user_id: Seq<char>,
    rooms: Seq<Seq<char>>,
    exp_seconds: u64,
    issued: u64,
    token: Seq<char>,
    now: u64,
    r: Result<Seq<char>, AuthErrorView>,
)
    requires
        a.secret() == b.secret(),
        token_issued_at(a.secret(), user_id, rooms, Seq::empty(), exp_seconds, issued, Ok(token)),
        checked_token_at(b.secret(), token, now, r),
        now <= issued + exp_seconds + expiry_leeway(),
    ensures
        r == Ok::<Seq<char>, AuthErrorView>(claims_json(fresh_claims(user_id, rooms, Seq::empty(), issued, exp_seconds))),
{
    lemma_issued_token_validates(a.secret(), user_id, rooms, exp_seconds, issued, token, now, r);
}

/// A sequence without `r` keeps all its entries when every `r` is dropped.
proof fn lemma_filter_without(s: Seq<Seq<char>>, r: Seq<char>)
    requires
        !s.contains(r),
    ensures
        s.filter(|x: Seq<char>| x != r) == s,
    decreases s.len(),
{
    reveal_with_fuel(Seq::filter, 1);
    if s.len() > 0 {
        assert(!s.drop_last().contains(r)) by {
            if s.drop_last().contains(r) {
                let j = choose|j: int| 0 <= j < s.drop_last().len() && s.drop_last()[j] == r;
                assert(s[j] == r);
            }
        }
        lemma_filter_without(s.drop_last(), r);
        assert(s.last() != r) by {
            assert(s[s.len() - 1] == s.last());
        }
        assert(s.drop_last().push(s.last()) =~= s);
    }
}

/// A connection that joins a room it was not in and then leaves it has its
/// joined rooms as before.
pub proof fn lemma_connection_join_then_leave_room(s: ConnectionStateView, r: Seq<char>)
    requires
        !s.rooms.contains(r),
    ensures
        (ConnectionStateView { rooms: s.rooms.push(r).filter(|x: Seq<char>| x != r), ..s }) == s,
{
    let p = |x: Seq<char>| x != r;
    s.rooms.lemma_filter_push(r, p);
    lemma_filter_without(s.rooms, r);
    assert(s.rooms.push(r).filter(p) == s.rooms.filter(p));
}

/// The lifetime of a token: a token issued at the UNIX time `issued` (in
/// seconds) for `exp_seconds` seconds, for claims without custom metadata, is
/// accepted by a check under its secret at every time up to a minute past
/// `issued + exp_seconds`, giving back the issued claims, and refused as
/// expired at every later time.
pub proof fn lemma_issued_token_lifetime(
    secret: Seq<char>,
    user_id: Seq<char>,
    rooms: Seq<Seq<char>>,
    exp_seconds: u64,
    issued: u64,
    token: Seq<char>,
    now: u64,
    r: Result<Seq<char>, AuthErrorView>,
)
    requires
        token_issued_at(secret, user_id, rooms, Seq::empty(), exp_seconds, issued, Ok(token)),
        checked_token_at(secret, token, now, r),
    ensures
        now <= issued + exp_seconds + 60 ==> r == Ok::<Seq<char>, AuthErrorView>(
            claims_json(fresh_claims(user_id, rooms, Seq::empty(), issued, exp_seconds)),
        ),
        now > issued + exp_seconds + 60 ==> r == Err::<Seq<char>, AuthErrorView>(
            AuthErrorView::InvalidToken("ExpiredSignature"@),
        ),
{
    let c = fresh_claims(user_id, rooms, Seq::empty(), issued, exp_seconds);
    assert(crate::auth::hs256_encoded(secret, claims_json(c)) == Ok::<Seq<char>, Seq<char>>(token));
    assert(c.exp == issued + exp_seconds);
    assert(validates_issued(secret, token, now, r));
    assert(refuses_expired_issued(secret, token, now, r));
}

/// No text or binary frame longer than the size limit is ever accepted,
/// whether or not its text parses.
pub proof fn lemma_accepted_frames_fit(
    config: WebSocketConfig,
    limiter: Option<RateLimiterView>,
    frame: IncomingFrame,
    now: u64,
)
    ensures
        frame_outcome(config, limiter, frame, now).1 is Ok ==> match frame {
            IncomingFrame::Text { len, .. } => len <= config.max_message_size,
            IncomingFrame::Binary { len } => len <= config.max_message_size,
            _ => true,
        },
{
}

/// A text or binary frame longer than the size limit that the limiter lets
/// through is refused as too large, whether or not its text parses; a text
/// frame within the limit is accepted, and dispatched exactly when it parses.
pub proof fn lemma_frame_size_and_parse(
    config: WebSocketConfig,
    limiter: Option<RateLimiterView>,
    frame: IncomingFrame,
    now: u64,
)
    requires
        frame_outcome(config, limiter, frame, now).1 != Err::<FrameAction, FrameError>(FrameError::RateLimitExceeded),
    ensures
        match frame {
            IncomingFrame::Text { len, parses } => if len > config.max_message_size {
                frame_outcome(config, limiter, frame, now).1 == Err::<FrameAction, FrameError>(FrameError::MessageTooLarge)
            } else {
                frame_outcome(config, limiter, frame, now).1 == Ok::<FrameAction, FrameError>(
                    if parses { FrameAction::Dispatch } else { FrameAction::Done },
                )
            },
            IncomingFrame::Binary { len } => len > config.max_message_size ==> frame_outcome(config, limiter, frame, now).1
                == Err::<FrameAction, FrameError>(FrameError::MessageTooLarge),
            _ => true,
        },
{
}

/// A frame that arrives while the limiter's window is still open and its
/// budget is spent is refused by the limiter, whatever the frame is.
pub proof fn lemma_rate_limit_comes_first(
    config: WebSocketConfig,
    l: RateLimiterView,
    frame: IncomingFrame,
    now: u64,
)
    requires
        elapsed(l.window_start, now) < l.window_duration,
        l.message_count >= l.max_messages,
    ensures
        frame_outcome(config, Some(l), frame, now).1 == Err::<FrameAction, FrameError>(FrameError::RateLimitExceeded),
{
}

/// Staleness does not depend on pings: two states that differ only in their
/// last ping are stale at the same times.
pub proof fn lemma_staleness_ignores_pings(s: ConnectionStateView, ping: Option<u64>, timeout: u64, now: u64)
    ensures
        stale_at(ConnectionStateView { last_ping: ping, ..s }, timeout, now) == stale_at(s, timeout, now),
{
}

/// Before any pong a connection is stale once more than `timeout` has passed
/// since it connected; after a pong, once more than `timeout` has passed since
/// the last pong.
pub proof fn lemma_stale_measured_from_pong(s: ConnectionStateView, timeout: u64, now: u64)
    ensures
        s.last_pong is None ==> (stale_at(s, timeout, now) <==> now > s.connected_at + timeout),
        s.last_pong matches Some(p) ==> (stale_at(s, timeout, now) <==> now > p + timeout),
{
}

} // verus!
