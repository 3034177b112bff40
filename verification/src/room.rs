//! Rooms and the room registry.

use std::collections::HashSet;

use dashmap::DashMap;
use vstd::prelude::*;

use crate::strmap::StrMap;
use crate::ConnectionId;

verus! {

broadcast use vstd::std_specs::hash::group_hash_axioms;

/// Unique identifier for rooms.
pub type RoomId = String;

/// Room-related errors.
#[derive(Debug)]
pub enum RoomError {
    RoomAlreadyExists(RoomId),
    RoomNotFound(RoomId),
    ConnectionAlreadyInRoom(ConnectionId),
    ConnectionNotInRoom(ConnectionId),
    OperationFailed(String),
}

/// The plain model of a room error.
pub enum RoomErrorView {
    RoomAlreadyExists(Seq<char>),
    RoomNotFound(Seq<char>),
    ConnectionAlreadyInRoom(ConnectionId),
    ConnectionNotInRoom(ConnectionId),
    OperationFailed(Seq<char>),
}

impl View for RoomError {
    type V = RoomErrorView;

    open spec fn view(&self) -> RoomErrorView {
        match self {
            RoomError::RoomAlreadyExists(id) => RoomErrorView::RoomAlreadyExists(id@),
            RoomError::RoomNotFound(id) => RoomErrorView::RoomNotFound(id@),
            RoomError::ConnectionAlreadyInRoom(c) => RoomErrorView::ConnectionAlreadyInRoom(*c),
            RoomError::ConnectionNotInRoom(c) => RoomErrorView::ConnectionNotInRoom(*c),
            RoomError::OperationFailed(m) => RoomErrorView::OperationFailed(m@),
        }
    }
}

/// The plain model of a room: its id, its member connections and its metadata.
pub struct RoomView {
    pub id: Seq<char>,
    pub connections: Set<ConnectionId>,
    pub metadata: Map<Seq<char>, Seq<char>>,
}

/// A room with its member connections and its metadata.
#[derive(Debug)]
pub struct Room {
    /// Room ID
    pub id: RoomId,
    connections: HashSet<ConnectionId>,
    metadata: StrMap,
}

impl View for Room {
    type V = RoomView;

    closed spec fn view(&self) -> RoomView {
        RoomView { id: self.id@, connections: self.connections@, metadata: self.metadata@ }
    }
}

/// Copies a set of connection ids with `<HashSet<u128> as Clone>::clone` from std,
/// which vstd leaves without a specification. The contract claims what std
/// documents for a clone: the copy holds the same ids.
#[verifier::external_body]
fn copy_id_set(s: &HashSet<ConnectionId>) -> (r: HashSet<ConnectionId>)
    ensures
        r@ == s@,
{
    s.clone()
}

impl Room {
    /// The room is well formed: its metadata has no repeated key.
    pub closed spec fn wf(&self) -> bool {
        self.metadata.wf()
    }

    /// Create a new room with no connections and no metadata.
    pub fn new(room_id: RoomId) -> (r: Room)
        ensures
            r.wf(),
            r@ == (RoomView {
                id: room_id@,
                connections: Set::<ConnectionId>::empty(),
                metadata: Map::<Seq<char>, Seq<char>>::empty(),
            }),
    {
        Room { id: room_id, connections: HashSet::new(), metadata: StrMap::new() }
    }

    /// A copy of this room.
    pub fn duplicate(&self) -> (r: Room)
        requires
            self.wf(),
        ensures
            r.wf(),
            r@ == self@,
    {
        Room {
            id: self.id.clone(),
            connections: copy_id_set(&self.connections),
            metadata: self.metadata.duplicate(),
        }
    }

    /// Add a connection to the room; a connection already in it is refused.
    pub fn join(&mut self, connection_id: ConnectionId) -> (r: Result<(), RoomError>)
        requires
            old(self).wf(),
        ensures
            final(self).wf(),
            old(self)@.connections.contains(connection_id) ==> {
                &&& r is Err
                &&& r->Err_0@ == RoomErrorView::ConnectionAlreadyInRoom(connection_id)
                &&& final(self)@ == old(self)@
            },
            !old(self)@.connections.contains(connection_id) ==> {
                &&& r is Ok
                &&& final(self)@ == (RoomView {
                    connections: old(self)@.connections.insert(connection_id),
                    ..old(self)@
                })
            },
    {
        if self.connections.contains(&connection_id) {
            return Err(RoomError::ConnectionAlreadyInRoom(connection_id));
        }
        self.connections.insert(connection_id);
        Ok(())
    }

    /// Remove a connection from the room; a connection not in it is refused.
    pub fn leave(&mut self, connection_id: &ConnectionId) -> (r: Result<(), RoomError>)
        requires
            old(self).wf(),
        ensures
            final(self).wf(),
            !old(self)@.connections.contains(*connection_id) ==> {
                &&& r is Err
                &&& r->Err_0@ == RoomErrorView::ConnectionNotInRoom(*connection_id)
                &&& final(self)@ == old(self)@
            },
            old(self)@.connections.contains(*connection_id) ==> {
                &&& r is Ok
                &&& final(self)@ == (RoomView {
                    connections: old(self)@.connections.remove(*connection_id),
                    ..old(self)@
                })
            },
    {
        if !self.connections.remove(connection_id) {
            assert(old(self)@.connections.remove(*connection_id) =~= old(self)@.connections);
            return Err(RoomError::ConnectionNotInRoom(*connection_id));
        }
        Ok(())
    }

    /// All connections in the room.
    pub fn get_connections(&self) -> (r: HashSet<ConnectionId>)
        ensures
            r@ == self@.connections,
    {
        copy_id_set(&self.connections)
    }

    /// Number of connections in the room.
    pub fn connection_count(&self) -> (n: usize)
        ensures
            n == self@.connections.len(),
    {
        self.connections.len()
    }

    /// Whether the room has no connection.
    pub fn is_empty(&self) -> (b: bool)
        ensures
            b == self@.connections.is_empty(),
    {
        self.connections.is_empty()
    }

    /// Whether a connection is in the room.
    pub fn has_connection(&self, connection_id: &ConnectionId) -> (b: bool)
        ensures
            b == self@.connections.contains(*connection_id),
    {
        self.connections.contains(connection_id)
    }

    /// Set a metadata entry of the room; it always succeeds.
    pub fn set_metadata(&mut self, key: String, value: String) -> (r: Result<(), RoomError>)
        requires
            old(self).wf(),
        ensures
            final(self).wf(),
            r is Ok,
            final(self)@ == (RoomView {
                metadata: old(self)@.metadata.insert(key@, value@),
                ..old(self)@
            }),
    {
        self.metadata.insert(key, value);
        Ok(())
    }

    /// A metadata entry of the room.
    pub fn get_metadata(&self, key: &str) -> (r: Option<String>)
        requires
            self.wf(),
        ensures
            match r {
                Some(v) => self@.metadata.contains_key(key@) && v@ == self@.metadata[key@],
                None => !self@.metadata.contains_key(key@),
            },
    {
        self.metadata.get(key)
    }

    /// All metadata entries of the room, each key once.
    pub fn get_all_metadata(&self) -> (r: Vec<(String, String)>)
        requires
            self.wf(),
        ensures
            crate::strmap::entries_map(r@) == self@.metadata,
            crate::strmap::keys_distinct(r@),
    {
        self.metadata.to_vec()
    }
}

/// `dashmap::DashMap`, the concurrent map that holds the rooms by id.
#[verifier::external_type_specification]
#[verifier::external_body]
#[verifier::reject_recursive_types(K)]
#[verifier::reject_recursive_types(V)]
#[verifier::reject_recursive_types(S)]
pub struct ExDashMap<K, V, S>(DashMap<K, V, S>);

/// The rooms that a room table holds, by the characters of their id.
pub uninterp spec fn room_table(m: DashMap<String, Room>) -> Map<Seq<char>, Room>;

/// Every room of the table is well formed and sits under its own id.
pub open spec fn table_wf(t: Map<Seq<char>, Room>) -> bool {
    &&& t.dom().finite()
    &&& forall|k: Seq<char>| #[trigger] t.contains_key(k) ==> t[k].wf() && t[k]@.id == k
}

/// `DashMap::new`: the contract claims that the new map holds no entry.
#[verifier::external_body]
fn table_new() -> (fresh: DashMap<String, Room>)
    ensures
        room_table(fresh) =~= Map::empty(),
{
    DashMap::new()
}

/// `DashMap::contains_key`: the contract claims that the result tells whether
/// an entry with key `k` is present.
#[verifier::external_body]
fn table_contains(m: &DashMap<String, Room>, k: &str) -> (b: bool)
    ensures
        b == room_table(*m).contains_key(k@),
{
    m.contains_key(k)
}

/// `DashMap::insert`: the contract claims that afterwards `k` maps to `v` and
/// every other entry is unchanged. The previous value that `insert` returns is dropped.
#[verifier::external_body]
fn table_insert(m: &mut DashMap<String, Room>, k: String, v: Room)
    ensures
        room_table(*final(m)) == room_table(*old(m)).insert(k@, v),
{
    m.insert(k, v);
}

/// `DashMap::remove`: the contract claims that the entry with key `k`, if
/// any, is taken out and handed back, and every other entry is unchanged.
#[verifier::external_body]
fn table_remove(m: &mut DashMap<String, Room>, k: &str) -> (r: Option<Room>)
    ensures
        room_table(*final(m)) == room_table(*old(m)).remove(k@),
        r == (if room_table(*old(m)).contains_key(k@) {
            Some(room_table(*old(m))[k@])
        } else {
            None
        }),
{
    m.remove(k).map(|(_, v)| v)
}

/// `DashMap::len`: the contract claims that the result is the number of entries.
#[verifier::external_body]
fn table_len(m: &DashMap<String, Room>) -> (n: usize)
    ensures
        n == room_table(*m).len(),
{
    m.len()
}

/// `DashMap::view`, handed the verified `Room::duplicate` as the closure that
/// reads the entry: the contract claims that the result is present exactly
/// when `k` is, and then has the view of the stored room, as `Room::duplicate`
/// ensures.
#[verifier::external_body]
fn table_get(m: &DashMap<String, Room>, k: &str) -> (r: Option<Room>)
    requires
        table_wf(room_table(*m)),
    ensures
        r is Some == room_table(*m).contains_key(k@),
        r matches Some(room) ==> room.wf() && room@ == room_table(*m)[k@]@,
{
    m.view(k, |_, room| room.duplicate())
}

/// `DashMap::iter`, each entry mapped to a copy of its key: the contract claims
/// that every key of the map comes out exactly once. The order is that of the
/// map's shards and hasher, which the contract leaves open.
#[verifier::external_body]
fn table_keys(m: &DashMap<String, Room>) -> (r: Vec<String>)
    ensures
        r@.map_values(|s: String| s@).no_duplicates(),
        r@.map_values(|s: String| s@).to_set() == room_table(*m).dom(),
{
    m.iter().map(|e| e.key().clone()).collect()
}

/// The rooms after connection `c` joined room `id`: an existing room gains
/// `c`; an unknown id gets a new room that holds only `c`.
pub open spec fn rooms_joined(rooms: Map<Seq<char>, RoomView>, id: Seq<char>, c: ConnectionId) -> Map<Seq<char>, RoomView> {
    if rooms.contains_key(id) {
        rooms.insert(id, RoomView { connections: rooms[id].connections.insert(c), ..rooms[id] })
    } else {
        rooms.insert(id, RoomView { id, connections: Set::empty().insert(c), metadata: Map::empty() })
    }
}

/// The rooms after connection `c` left room `id`: the room loses `c`, and is
/// dropped when that leaves it empty.
pub open spec fn rooms_left(rooms: Map<Seq<char>, RoomView>, id: Seq<char>, c: ConnectionId) -> Map<Seq<char>, RoomView> {
    if rooms[id].connections.remove(c).is_empty() {
        rooms.remove(id)
    } else {
        rooms.insert(id, RoomView { connections: rooms[id].connections.remove(c), ..rooms[id] })
    }
}

/// The rooms of a registry with every connection `c` taken out, and the rooms
/// that this left empty dropped. A room that did not hold `c` stays as it was.
pub open spec fn rooms_without(rooms: Map<Seq<char>, RoomView>, c: ConnectionId) -> Map<Seq<char>, RoomView> {
    Map::new(
        |k: Seq<char>|
            rooms.contains_key(k) && !(rooms[k].connections.contains(c) && rooms[k].connections.remove(
                c,
            ).is_empty()),
        |k: Seq<char>| RoomView { connections: rooms[k].connections.remove(c), ..rooms[k] },
    )
}

/// Room management system: manages rooms and their connections.
pub struct RoomManager {
    rooms: DashMap<RoomId, Room>,
}

impl View for RoomManager {
    type V = Map<Seq<char>, RoomView>;

    closed spec fn view(&self) -> Map<Seq<char>, RoomView> {
        room_table(self.rooms).map_values(|r: Room| r@)
    }
}

impl RoomManager {
    /// Every room is well formed and filed under its own id.
    pub closed spec fn wf(&self) -> bool {
        table_wf(room_table(self.rooms))
    }

    /// Each room is filed under its own id.
    pub proof fn lemma_room_ids(&self)
        requires
            self.wf(),
        ensures
            forall|k: Seq<char>| #[trigger] self@.contains_key(k) ==> self@[k].id == k,
    {
    }

    /// Create a new room manager with no room.
    pub fn new() -> (m: RoomManager)
        ensures
            m.wf(),
            m@ == Map::<Seq<char>, RoomView>::empty(),
    {
        let m = RoomManager { rooms: table_new() };
        assert(m@ =~= Map::<Seq<char>, RoomView>::empty());
        m
    }

    /// Create a new, empty room; an id already in use is refused.
    pub fn create_room(&mut self, room_id: RoomId) -> (r: Result<(), RoomError>)
        requires
            old(self).wf(),
        ensures
            final(self).wf(),
            old(self)@.contains_key(room_id@) ==> {
                &&& r is Err
                &&& r->Err_0@ == RoomErrorView::RoomAlreadyExists(room_id@)
                &&& final(self)@ == old(self)@
            },
            !old(self)@.contains_key(room_id@) ==> {
                &&& r is Ok
                &&& final(self)@ == old(self)@.insert(
                    room_id@,
                    RoomView {
                        id: room_id@,
                        connections: Set::empty(),
                        metadata: Map::empty(),
                    },
                )
            },
    {
        if table_contains(&self.rooms, room_id.as_str()) {
            return Err(RoomError::RoomAlreadyExists(room_id));
        }
        let room = Room::new(room_id.clone());
        table_insert(&mut self.rooms, room_id, room);
        assert(self@ =~= old(self)@.insert(room.id@, room@));
        Ok(())
    }

    /// Delete a room; an unknown id is refused.
    pub fn delete_room(&mut self, room_id: &RoomId) -> (r: Result<(), RoomError>)
        requires
            old(self).wf(),
        ensures
            final(self).wf(),
            !old(self)@.contains_key(room_id@) ==> {
                &&& r is Err
                &&& r->Err_0@ == RoomErrorView::RoomNotFound(room_id@)
                &&& final(self)@ == old(self)@
            },
            old(self)@.contains_key(room_id@) ==> {
                &&& r is Ok
                &&& final(self)@ == old(self)@.remove(room_id@)
            },
    {
        let removed = table_remove(&mut self.rooms, room_id.as_str());
        assert(self@ =~= old(self)@.remove(room_id@));
        if removed.is_none() {
            return Err(RoomError::RoomNotFound(room_id.clone()));
        }
        Ok(())
    }

    /// Check if a room exists.
    pub fn room_exists(&self, room_id: &RoomId) -> (b: bool)
        ensures
            b == self@.contains_key(room_id@),
    {
        table_contains(&self.rooms, room_id.as_str())
    }

    /// The ids of all rooms, each once, in no particular order.
    pub fn list_rooms(&self) -> (r: Vec<RoomId>)
        ensures
            r@.map_values(|s: String| s@).no_duplicates(),
            r@.map_values(|s: String| s@).to_set() == self@.dom(),
    {
        table_keys(&self.rooms)
    }

    /// The number of rooms.
    pub fn room_count(&self) -> (n: usize)
        ensures
            n == self@.len(),
    {
        assert(self@.dom() =~= room_table(self.rooms).dom());
        table_len(&self.rooms)
    }

    /// A handle on a room, if it exists. The handle names the room; its
    /// operations read and change the room inside the registry, so what is
    /// done through one handle is seen through the registry and every other
    /// handle on the room.
    pub fn get_room(&self, room_id: &RoomId) -> (r: Option<RoomHandle>)
        ensures
            r is Some == self@.contains_key(room_id@),
            r matches Some(h) ==> h.id@ == room_id@,
    {
        if table_contains(&self.rooms, room_id.as_str()) {
            Some(RoomHandle { id: room_id.clone() })
        } else {
            None
        }
    }

    /// Add a connection to a room, creating the room if it does not exist.
    /// A connection already in the room is refused.
    pub fn join_room(&mut self, room_id: RoomId, connection_id: ConnectionId) -> (r: Result<(), RoomError>)
        requires
            old(self).wf(),
        ensures
            final(self).wf(),
            old(self)@.contains_key(room_id@) && old(self)@[room_id@].connections.contains(connection_id) ==> {
                &&& r is Err
                &&& r->Err_0@ == RoomErrorView::ConnectionAlreadyInRoom(connection_id)
                &&& final(self)@ == old(self)@
            },
            !(old(self)@.contains_key(room_id@) && old(self)@[room_id@].connections.contains(connection_id)) ==> {
                &&& r is Ok
                &&& final(self)@ == rooms_joined(old(self)@, room_id@, connection_id)
            },
    {
        let mut room = match table_remove(&mut self.rooms, room_id.as_str()) {
            Some(room) => room,
            None => Room::new(room_id.clone()),
        };
        let res = room.join(connection_id);
        table_insert(&mut self.rooms, room_id, room);
        proof {
            if old(self)@.contains_key(room_id@) {
                assert(self@ =~= old(self)@.insert(room_id@, room@));
                if res is Err {
                    assert(self@ =~= old(self)@);
                }
            } else {
                assert(self@ =~= old(self)@.insert(room_id@, room@));
            }
        }
        res
    }

    /// Remove a connection from a room; a room that this leaves empty is deleted.
    /// An unknown room, or a connection not in the room, is refused.
    pub fn leave_room(&mut self, room_id: &RoomId, connection_id: &ConnectionId) -> (r: Result<(), RoomError>)
        requires
            old(self).wf(),
        ensures
            final(self).wf(),
            !old(self)@.contains_key(room_id@) ==> {
                &&& r is Err
                &&& r->Err_0@ == RoomErrorView::RoomNotFound(room_id@)
                &&& final(self)@ == old(self)@
            },
            old(self)@.contains_key(room_id@) && !old(self)@[room_id@].connections.contains(*connection_id) ==> {
                &&& r is Err
                &&& r->Err_0@ == RoomErrorView::ConnectionNotInRoom(*connection_id)
                &&& final(self)@ == old(self)@
            },
            old(self)@.contains_key(room_id@) && old(self)@[room_id@].connections.contains(*connection_id) ==> {
                &&& r is Ok
                &&& final(self)@ == rooms_left(old(self)@, room_id@, *connection_id)
            },
    {
        match table_remove(&mut self.rooms, room_id.as_str()) {
            None => {
                assert(self@ =~= old(self)@);
                Err(RoomError::RoomNotFound(room_id.clone()))
            },
            Some(mut room) => {
                let res = room.leave(connection_id);
                match res {
                    Err(e) => {
                        let key = room.id.clone();
                        table_insert(&mut self.rooms, key, room);
                        assert(self@ =~= old(self)@);
                        Err(e)
                    },
                    Ok(()) => {
                        if room.is_empty() {
                            assert(self@ =~= old(self)@.remove(room_id@));
                        } else {
                            let key = room.id.clone();
                            table_insert(&mut self.rooms, key, room);
                            assert(self@ =~= old(self)@.insert(room_id@, room@));
                        }
                        Ok(())
                    },
                }
            },
        }
    }

    /// Remove a connection from all rooms; rooms that this leaves empty are deleted.
    pub fn leave_all_rooms(&mut self, connection_id: &ConnectionId)
        requires
            old(self).wf(),
        ensures
            final(self).wf(),
            final(self)@ == rooms_without(old(self)@, *connection_id),
    {
        let room_ids = table_keys(&self.rooms);
        let ghost ids = room_ids@.map_values(|s: String| s@);
        let ghost start = self@;
        let n = room_ids.len();
        let mut i: usize = 0;
        while i < n
            invariant
                self.wf(),
                n == room_ids@.len(),
                ids == room_ids@.map_values(|s: String| s@),
                ids.no_duplicates(),
                ids.to_set() == start.dom(),
                i <= n,
                forall|k: Seq<char>| #[trigger] self@.contains_key(k) ==> start.contains_key(k),
                forall|k: Seq<char>|
                    #![trigger self@.contains_key(k)]
                    start.contains_key(k) && !ids.subrange(0, i as int).contains(k) ==> self@.contains_key(k)
                        && self@[k] == start[k],
                forall|k: Seq<char>|
                    #![trigger rooms_without(start, *connection_id).contains_key(k)]
                    start.contains_key(k) && ids.subrange(0, i as int).contains(k) ==> (self@.contains_key(k)
                        == rooms_without(start, *connection_id).contains_key(k)) && (self@.contains_key(k)
                        ==> self@[k] == rooms_without(start, *connection_id)[k]),
            decreases n - i,
        {
            let ghost before = self@;
            let ghost k = ids[i as int];
            assert(room_ids@[i as int]@ == k);
            assert(start.contains_key(k)) by {
                assert(ids.to_set().contains(k));
            }
            assert(!ids.subrange(0, i as int).contains(k)) by {
                if ids.subrange(0, i as int).contains(k) {
                    let j = choose|j: int| 0 <= j < i && ids.subrange(0, i as int)[j] == k;
                    assert(ids[j] == ids[i as int]);
                }
            }
            let _ = self.leave_room(&room_ids[i], connection_id);
            proof {
                assert forall|k2: Seq<char>| #[trigger] self@.contains_key(k2) implies start.contains_key(k2) by {
                    if k2 != k {
                        assert(before.contains_key(k2));
                    }
                }
                assert forall|k2: Seq<char>|
                    #![trigger self@.contains_key(k2)]
                    start.contains_key(k2) && !ids.subrange(0, i + 1).contains(k2) implies self@.contains_key(k2)
                        && self@[k2] == start[k2] by {
                    assert(ids.subrange(0, i + 1)[i as int] == k);
                    assert(k2 != k);
                    assert(!ids.subrange(0, i as int).contains(k2)) by {
                        if ids.subrange(0, i as int).contains(k2) {
                            let j = choose|j: int| 0 <= j < i && ids.subrange(0, i as int)[j] == k2;
                            assert(ids.subrange(0, i + 1)[j] == k2);
                        }
                    }
                }
                assert forall|k2: Seq<char>|
                    #![trigger rooms_without(start, *connection_id).contains_key(k2)]
                    start.contains_key(k2) && ids.subrange(0, i + 1).contains(k2) implies (self@.contains_key(k2)
                        == rooms_without(start, *connection_id).contains_key(k2)) && (self@.contains_key(k2)
                        ==> self@[k2] == rooms_without(start, *connection_id)[k2]) by {
                    if k2 == k {
                        assert(before[k] == start[k]);
                        if !start[k].connections.contains(*connection_id) {
                            assert(start[k].connections.remove(*connection_id) =~= start[k].connections);
                        }
                    } else {
                        let nxt = ids.subrange(0, i + 1);
                        let j = choose|j: int| 0 <= j < nxt.len() && nxt[j] == k2;
                        assert(j != i);
                        assert(ids.subrange(0, i as int)[j] == k2);
                        assert(rooms_without(start, *connection_id).contains_key(k2) ==> before.contains_key(k2));
                    }
                }
            }
            i = i + 1;
        }
        proof {
            assert(ids.subrange(0, n as int) =~= ids);
            assert forall|k: Seq<char>| start.contains_key(k) implies ids.contains(k) by {
                assert(ids.to_set().contains(k));
            }
            assert(self@ =~= rooms_without(start, *connection_id)) by {
                assert forall|k: Seq<char>| #[trigger] self@.contains_key(k)
                    == rooms_without(start, *connection_id).contains_key(k) by {
                    if start.contains_key(k) {
                        assert(ids.subrange(0, n as int).contains(k));
                    }
                }
            }
        }
    }

    /// All connections in a room; none for an unknown room.
    pub fn get_room_connections(&self, room_id: &RoomId) -> (r: HashSet<ConnectionId>)
        requires
            self.wf(),
        ensures
            self@.contains_key(room_id@) ==> r@ == self@[room_id@].connections,
            !self@.contains_key(room_id@) ==> r@ == Set::<ConnectionId>::empty(),
    {
        match table_get(&self.rooms, room_id.as_str()) {
            Some(room) => room.get_connections(),
            None => HashSet::new(),
        }
    }

    /// Whether a room has no connection; an unknown room counts as empty.
    pub fn is_room_empty(&self, room_id: &RoomId) -> (b: bool)
        requires
            self.wf(),
        ensures
            b == (!self@.contains_key(room_id@) || self@[room_id@].connections.is_empty()),
    {
        match table_get(&self.rooms, room_id.as_str()) {
            Some(room) => room.is_empty(),
            None => true,
        }
    }
}

/// The rooms after connection `c` joined the existing room `id`.
pub open spec fn room_with(rooms: Map<Seq<char>, RoomView>, id: Seq<char>, c: ConnectionId) -> Map<Seq<char>, RoomView> {
    rooms.insert(id, RoomView { connections: rooms[id].connections.insert(c), ..rooms[id] })
}

/// The rooms after connection `c` left the existing room `id`; the room stays,
/// even when this leaves it empty.
pub open spec fn room_without(rooms: Map<Seq<char>, RoomView>, id: Seq<char>, c: ConnectionId) -> Map<Seq<char>, RoomView> {
    rooms.insert(id, RoomView { connections: rooms[id].connections.remove(c), ..rooms[id] })
}

/// A handle on a room of a registry. It holds the room's id; each operation
/// takes the registry and works on the room held there, so every handle on
/// the room, and the registry itself, see the same room. A handle on a room
/// that has since been deleted finds no room.
pub struct RoomHandle {
    /// Room ID
    pub id: RoomId,
}

impl RoomHandle {
    /// Add a connection to the room; a connection already in it is refused.
    pub fn join(&self, rooms: &mut RoomManager, connection_id: ConnectionId) -> (r: Result<(), RoomError>)
        requires
            old(rooms).wf(),
        ensures
            final(rooms).wf(),
            !old(rooms)@.contains_key(self.id@) ==> {
                &&& r is Err
                &&& r->Err_0@ == RoomErrorView::RoomNotFound(self.id@)
                &&& final(rooms)@ == old(rooms)@
            },
            old(rooms)@.contains_key(self.id@) && old(rooms)@[self.id@].connections.contains(connection_id) ==> {
                &&& r is Err
                &&& r->Err_0@ == RoomErrorView::ConnectionAlreadyInRoom(connection_id)
                &&& final(rooms)@ == old(rooms)@
            },
            old(rooms)@.contains_key(self.id@) && !old(rooms)@[self.id@].connections.contains(connection_id) ==> {
                &&& r is Ok
                &&& final(rooms)@ == room_with(old(rooms)@, self.id@, connection_id)
            },
    {
        match table_remove(&mut rooms.rooms, self.id.as_str()) {
            None => {
                assert(rooms@ =~= old(rooms)@);
                Err(RoomError::RoomNotFound(self.id.clone()))
            },
            Some(mut room) => {
                let res = room.join(connection_id);
                let key = self.id.clone();
                table_insert(&mut rooms.rooms, key, room);
                assert(rooms@ =~= old(rooms)@.insert(self.id@, room@));
                proof {
                    if res is Err {
                        assert(rooms@ =~= old(rooms)@);
                    }
                }
                res
            },
        }
    }

    /// Remove a connection from the room; a connection not in it is refused.
    /// The room stays, even when this leaves it empty.
    pub fn leave(&self, rooms: &mut RoomManager, connection_id: &ConnectionId) -> (r: Result<(), RoomError>)
        requires
            old(rooms).wf(),
        ensures
            final(rooms).wf(),
            !old(rooms)@.contains_key(self.id@) ==> {
                &&& r is Err
                &&& r->Err_0@ == RoomErrorView::RoomNotFound(self.id@)
                &&& final(rooms)@ == old(rooms)@
            },
            old(rooms)@.contains_key(self.id@) && !old(rooms)@[self.id@].connections.contains(*connection_id) ==> {
                &&& r is Err
                &&& r->Err_0@ == RoomErrorView::ConnectionNotInRoom(*connection_id)
                &&& final(rooms)@ == old(rooms)@
            },
            old(rooms)@.contains_key(self.id@) && old(rooms)@[self.id@].connections.contains(*connection_id) ==> {
                &&& r is Ok
                &&& final(rooms)@ == room_without(old(rooms)@, self.id@, *connection_id)
            },
    {
        match table_remove(&mut rooms.rooms, self.id.as_str()) {
            None => {
                assert(rooms@ =~= old(rooms)@);
                Err(RoomError::RoomNotFound(self.id.clone()))
            },
            Some(mut room) => {
                let res = room.leave(connection_id);
                let key = self.id.clone();
                table_insert(&mut rooms.rooms, key, room);
                assert(rooms@ =~= old(rooms)@.insert(self.id@, room@));
                proof {
                    if res is Err {
                        assert(rooms@ =~= old(rooms)@);
                    }
                }
                res
            },
        }
    }

    /// All connections in the room; none when the room is gone.
    pub fn get_connections(&self, rooms: &RoomManager) -> (r: HashSet<ConnectionId>)
        requires
            rooms.wf(),
        ensures
            rooms@.contains_key(self.id@) ==> r@ == rooms@[self.id@].connections,
            !rooms@.contains_key(self.id@) ==> r@ == Set::<ConnectionId>::empty(),
    {
        rooms.get_room_connections(&self.id)
    }

    /// Number of connections in the room; 0 when the room is gone.
    pub fn connection_count(&self, rooms: &RoomManager) -> (n: usize)
        requires
            rooms.wf(),
        ensures
            rooms@.contains_key(self.id@) ==> n == rooms@[self.id@].connections.len(),
            !rooms@.contains_key(self.id@) ==> n == 0,
    {
        match table_get(&rooms.rooms, self.id.as_str()) {
            Some(room) => room.connection_count(),
            None => 0,
        }
    }

    /// Whether a connection is in the room.
    pub fn has_connection(&self, rooms: &RoomManager, connection_id: &ConnectionId) -> (b: bool)
        requires
            rooms.wf(),
        ensures
            b == (rooms@.contains_key(self.id@) && rooms@[self.id@].connections.contains(*connection_id)),
    {
        match table_get(&rooms.rooms, self.id.as_str()) {
            Some(room) => room.has_connection(connection_id),
            None => false,
        }
    }

    /// Set a metadata entry of the room.
    pub fn set_metadata(&self, rooms: &mut RoomManager, key: String, value: String) -> (r: Result<(), RoomError>)
        requires
            old(rooms).wf(),
        ensures
            final(rooms).wf(),
            !old(rooms)@.contains_key(self.id@) ==> {
                &&& r is Err
                &&& r->Err_0@ == RoomErrorView::RoomNotFound(self.id@)
                &&& final(rooms)@ == old(rooms)@
            },
            old(rooms)@.contains_key(self.id@) ==> {
                &&& r is Ok
                &&& final(rooms)@ == old(rooms)@.insert(
                    self.id@,
                    RoomView { metadata: old(rooms)@[self.id@].metadata.insert(key@, value@), ..old(rooms)@[self.id@] },
                )
            },
    {
        match table_remove(&mut rooms.rooms, self.id.as_str()) {
            None => {
                assert(rooms@ =~= old(rooms)@);
                Err(RoomError::RoomNotFound(self.id.clone()))
            },
            Some(mut room) => {
                let _ = room.set_metadata(key, value);
                let k = self.id.clone();
                table_insert(&mut rooms.rooms, k, room);
                assert(rooms@ =~= old(rooms)@.insert(self.id@, room@));
                Ok(())
            },
        }
    }

    /// A metadata entry of the room; none when the room is gone.
    pub fn get_metadata(&self, rooms: &RoomManager, key: &str) -> (r: Option<String>)
        requires
            rooms.wf(),
        ensures
            match r {
                Some(v) => rooms@.contains_key(self.id@) && rooms@[self.id@].metadata.contains_key(key@)
                    && v@ == rooms@[self.id@].metadata[key@],
                None => !rooms@.contains_key(self.id@) || !rooms@[self.id@].metadata.contains_key(key@),
            },
    {
        match table_get(&rooms.rooms, self.id.as_str()) {
            Some(room) => room.get_metadata(key),
            None => None,
        }
    }

    /// All metadata entries of the room, each key once; none when the room is gone.
    pub fn get_all_metadata(&self, rooms: &RoomManager) -> (r: Vec<(String, String)>)
        requires
            rooms.wf(),
        ensures
            crate::strmap::keys_distinct(r@),
            rooms@.contains_key(self.id@) ==> crate::strmap::entries_map(r@) == rooms@[self.id@].metadata,
            !rooms@.contains_key(self.id@) ==> r@.len() == 0,
    {
        match table_get(&rooms.rooms, self.id.as_str()) {
            Some(room) => room.get_all_metadata(),
            None => Vec::new(),
        }
    }
}

impl Default for RoomManager {
    fn default() -> (m: Self)
        ensures
            m.wf(),
            m@ == Map::<Seq<char>, RoomView>::empty(),
    {
        Self::new()
    }
}

} // verus!
