//! The backing store and the operations of the room-booking core.
//!
//! [`Store`] owns the two relations, `rooms` and `occupancies`, together
//! with the sequence that numbers occupancy rows. Its well-formedness
//! predicate [`Store::inv`] captures the schema constraints: unique room
//! identifiers, names and codes; unique occupancy identifiers below the
//! sequence head; a foreign key from every occupancy to its room; and at
//! most one occupancy per room. Because an occupancy row is deleted when
//! its room is freed, the `occupancies` relation holds exactly the active
//! set, and a room is active precisely when a row references it.

use crate::errors::{
    InternalServerError, RoomError, RoomNotFoundError, RoomNotOccupiedError, RoomOccupiedError,
    RoomWithIdExistsError, RoomWithNameExistsError,
};
use crate::models::{make_active, ActiveRoom, CurrentState, NewOccupancy, NewRoom, Occupancy, Room};
use crate::timefmt::{format_time_limit, time_limit_display};
use vstd::prelude::*;

verus! {

/// The room and occupancy relations, with the occupancy id sequence.
#[derive(Debug)]
pub struct Store {
    pub rooms: Vec<Room>,
    pub occupancies: Vec<Occupancy>,
    /// The identifier the next occupancy row will be assigned.
    pub next_occupancy_id: i32,
}

impl Store {
    /// Some room row carries the identifier `id`.
    pub open spec fn room_exists(self, id: u128) -> bool {
        exists|i: int| 0 <= i < self.rooms@.len() && self.rooms@[i].id == id
    }

    /// Some room row carries the name `name`.
    pub open spec fn name_exists(self, name: Seq<char>) -> bool {
        exists|i: int| 0 <= i < self.rooms@.len() && self.rooms@[i].name@ == name
    }

    /// Some room row carries the room code `code`.
    pub open spec fn code_exists(self, code: Seq<char>) -> bool {
        exists|i: int| 0 <= i < self.rooms@.len() && self.rooms@[i].room_id@ == code
    }

    /// Some occupancy row references the room `id`: the room is active.
    pub open spec fn has_active(self, id: u128) -> bool {
        exists|i: int| 0 <= i < self.occupancies@.len() && self.occupancies@[i].occupied_room_id == id
    }

    /// The index of the room row carrying `id`, meaningful when
    /// [`Store::room_exists`] holds.
    pub open spec fn room_index_of(self, id: u128) -> int {
        choose|i: int| 0 <= i < self.rooms@.len() && self.rooms@[i].id == id
    }

    /// The room row carrying `id`, meaningful when [`Store::room_exists`]
    /// holds.
    pub open spec fn room_for(self, id: u128) -> Room {
        self.rooms@[self.room_index_of(id)]
    }

    /// The schema constraints the store enforces.
    pub open spec fn inv(self) -> bool {
        &&& 0 <= self.next_occupancy_id
        &&& forall|i: int, j: int|
            0 <= i < j < self.rooms@.len() ==> self.rooms@[i].id != self.rooms@[j].id
        &&& forall|i: int, j: int|
            0 <= i < j < self.rooms@.len() ==> self.rooms@[i].name@ != self.rooms@[j].name@
        &&& forall|i: int, j: int|
            0 <= i < j < self.rooms@.len() ==> self.rooms@[i].room_id@ != self.rooms@[j].room_id@
        &&& forall|i: int, j: int|
            0 <= i < j < self.occupancies@.len() ==> self.occupancies@[i].id
                != self.occupancies@[j].id
        &&& forall|i: int|
            0 <= i < self.occupancies@.len() ==> 0 <= #[trigger] self.occupancies@[i].id
                < self.next_occupancy_id
        &&& forall|i: int|
            0 <= i < self.occupancies@.len() ==> self.room_exists(
                #[trigger] self.occupancies@[i].occupied_room_id,
            )
        &&& forall|i: int, j: int|
            0 <= i < j < self.occupancies@.len() ==> self.occupancies@[i].occupied_room_id
                != self.occupancies@[j].occupied_room_id
    }

    /// A fresh, empty store: no rooms, no occupancies, the sequence at its
    /// start.
    pub fn new() -> (store: Store)
        ensures
            store.inv(),
            store.rooms@ == Seq::<Room>::empty(),
            store.occupancies@ == Seq::<Occupancy>::empty(),
            store.next_occupancy_id == 1,
    {
        Store { rooms: Vec::new(), occupancies: Vec::new(), next_occupancy_id: 1 }
    }

    /// The index of the room row carrying `id`, if any.
    fn find_room_index(&self, id: u128) -> (r: Option<usize>)
        ensures
            match r {
                Some(i) => i < self.rooms@.len() && self.rooms@[i as int].id == id,
                None => !self.room_exists(id),
            },
    {
        let n = self.rooms.len();
        let mut i: usize = 0;
        while i < n
            invariant
                i <= n,
                n == self.rooms@.len(),
                forall|j: int| 0 <= j < i ==> self.rooms@[j].id != id,
            decreases n - i,
        {
            if self.rooms[i].id == id {
                return Some(i);
            }
            i += 1;
        }
        None
    }

    /// The index of the occupancy row referencing the room `id`, if any.
    fn find_occupancy_index(&self, id: u128) -> (r: Option<usize>)
        ensures
            match r {
                Some(i) => i < self.occupancies@.len() && self.occupancies@[i as int].occupied_room_id
                    == id,
                None => !self.has_active(id),
            },
    {
        let n = self.occupancies.len();
        let mut i: usize = 0;
        while i < n
            invariant
                i <= n,
                n == self.occupancies@.len(),
                forall|j: int| 0 <= j < i ==> self.occupancies@[j].occupied_room_id != id,
            decreases n - i,
        {
            if self.occupancies[i].occupied_room_id == id {
                return Some(i);
            }
            i += 1;
        }
        None
    }

    /// The error a create of `data` under the fresh identifier `id` is
    /// answered with, if any. A name conflict is reported ahead of a room
    /// code conflict; a collision on the generated identifier itself is a
    /// violated primary-key constraint and surfaces as an internal error.
    pub open spec fn create_err(self, data: NewRoom, id: u128) -> Option<RoomError> {
        if self.name_exists(data.name@) {
            Some(RoomError::NameExists(RoomWithNameExistsError))
        } else if self.code_exists(data.room_id@) {
            Some(RoomError::IdExists(RoomWithIdExistsError))
        } else if self.room_exists(id) {
            Some(RoomError::Internal(InternalServerError))
        } else {
            None
        }
    }

    /// The error an occupy of `data` is answered with, if any: the room
    /// must exist, must not be active, and the identifier sequence must not
    /// be exhausted.
    pub open spec fn occupy_err(self, data: NewOccupancy) -> Option<RoomError> {
        if !self.room_exists(data.occupied_room_id) {
            Some(RoomError::NotFound(RoomNotFoundError))
        } else if self.has_active(data.occupied_room_id) {
            Some(RoomError::Occupied(RoomOccupiedError))
        } else if self.next_occupancy_id == i32::MAX {
            Some(RoomError::Internal(InternalServerError))
        } else {
            None
        }
    }

    /// The error a free of the room `id` is answered with, if any: the room
    /// must exist and must currently be active.
    pub open spec fn free_err(self, id: u128) -> Option<RoomError> {
        if !self.room_exists(id) {
            Some(RoomError::NotFound(RoomNotFoundError))
        } else if !self.has_active(id) {
            Some(RoomError::NotOccupied(RoomNotOccupiedError))
        } else {
            None
        }
    }

    /// The occupancy row a successful occupy of `data` inserts.
    pub open spec fn fresh_occupancy(self, data: NewOccupancy) -> Occupancy {
        Occupancy {
            id: self.next_occupancy_id,
            occupied_room_id: data.occupied_room_id,
            occupied_until: data.occupied_until,
            meeting_title: data.meeting_title,
            comments: data.comments,
        }
    }

    /// Whether some room row carries the name `name`.
    fn name_taken(&self, name: &String) -> (r: bool)
        ensures
            r == self.name_exists(name@),
    {
        let n = self.rooms.len();
        let mut i: usize = 0;
        while i < n
            invariant
                i <= n,
                n == self.rooms@.len(),
                forall|j: int| 0 <= j < i ==> self.rooms@[j].name@ != name@,
            decreases n - i,
        {
            if self.rooms[i].name == *name {
                return true;
            }
            i += 1;
        }
        false
    }

    /// Whether some room row carries the room code `code`.
    fn code_taken(&self, code: &String) -> (r: bool)
        ensures
            r == self.code_exists(code@),
    {
        let n = self.rooms.len();
        let mut i: usize = 0;
        while i < n
            invariant
                i <= n,
                n == self.rooms@.len(),
                forall|j: int| 0 <= j < i ==> self.rooms@[j].room_id@ != code@,
            decreases n - i,
        {
            if self.rooms[i].room_id == *code {
                return true;
            }
            i += 1;
        }
        false
    }

    /// Creates a room from `data` under the fresh identifier `id`, after
    /// checking that its name and room code are unused. On success the new
    /// row, with the time limit rendered as `HH:MM:SS`, is appended to the
    /// room relation and returned.
    pub fn create_room(&mut self, data: NewRoom, id: u128) -> (r: Result<Room, RoomError>)
        requires
            old(self).inv(),
        ensures
            final(self).inv(),
            final(self).occupancies@ == old(self).occupancies@,
            final(self).next_occupancy_id == old(self).next_occupancy_id,
            match r {
                Ok(room) => {
                    &&& old(self).create_err(data, id) is None
                    &&& room.id == id
                    &&& room.name == data.name
                    &&& room.room_id == data.room_id
                    &&& room.capacity == data.capacity
                    &&& room.time_limit@ == time_limit_display(data.time_limit as nat)
                    &&& room.link == data.link
                    &&& room.comments == data.comments
                    &&& final(self).rooms@ == old(self).rooms@.push(room)
                },
                Err(e) => {
                    &&& old(self).create_err(data, id) == Some(e)
                    &&& final(self).rooms@ == old(self).rooms@
                },
            },
    {
        if self.name_taken(&data.name) {
            return Err(RoomError::NameExists(RoomWithNameExistsError));
        }
        if self.code_taken(&data.room_id) {
            return Err(RoomError::IdExists(RoomWithIdExistsError));
        }
        if self.find_room_index(id).is_some() {
            return Err(RoomError::Internal(InternalServerError));
        }
        let room = Room {
            id,
            name: data.name,
            room_id: data.room_id,
            capacity: data.capacity,
            time_limit: format_time_limit(data.time_limit),
            link: data.link,
            comments: data.comments,
        };
        let result = room.clone();
        let ghost added = room;
        self.rooms.push(room);
        proof {
            let rs = self.rooms@;
            let old_rs = old(self).rooms@;
            let n = old_rs.len() as int;
            assert(rs == old_rs.push(added));
            assert forall|i: int, j: int| 0 <= i < j < rs.len() implies rs[i].id != rs[j].id
                && rs[i].name@ != rs[j].name@ && rs[i].room_id@ != rs[j].room_id@ by {
                if j == n {
                    assert(rs[i] == old_rs[i]);
                    assert(rs[j] == added);
                    assert(old_rs[i].id != id);
                    assert(old_rs[i].name@ != data.name@);
                    assert(old_rs[i].room_id@ != data.room_id@);
                } else {
                    assert(rs[i] == old_rs[i]);
                    assert(rs[j] == old_rs[j]);
                    assert(old_rs[i].id != old_rs[j].id);
                    assert(old_rs[i].name@ != old_rs[j].name@);
                    assert(old_rs[i].room_id@ != old_rs[j].room_id@);
                }
            }
            assert forall|i: int| 0 <= i < self.occupancies@.len() implies self.room_exists(
                #[trigger] self.occupancies@[i].occupied_room_id,
            ) by {
                assert(old(self).room_exists(self.occupancies@[i].occupied_room_id));
                let w = choose|k: int|
                    0 <= k < old_rs.len() && old_rs[k].id == self.occupancies@[i].occupied_room_id;
                assert(rs[w].id == self.occupancies@[i].occupied_room_id);
            }
        }
        Ok(result)
    }

    /// Books the room `data.occupied_room_id`: the room must exist and must
    /// not already be active. On success a fresh occupancy row is appended
    /// to the ledger and the joined room is returned.
    pub fn occupy(&mut self, data: NewOccupancy) -> (r: Result<ActiveRoom, RoomError>)
        requires
            old(self).inv(),
        ensures
            final(self).inv(),
            final(self).rooms@ == old(self).rooms@,
            match r {
                Ok(active) => {
                    &&& old(self).occupy_err(data) is None
                    &&& final(self).occupancies@ == old(self).occupancies@.push(
                        old(self).fresh_occupancy(data),
                    )
                    &&& final(self).next_occupancy_id == old(self).next_occupancy_id + 1
                    &&& active == make_active(
                        old(self).room_for(data.occupied_room_id),
                        old(self).fresh_occupancy(data),
                    )
                    &&& final(self).has_active(data.occupied_room_id)
                },
                Err(e) => {
                    &&& old(self).occupy_err(data) == Some(e)
                    &&& final(self).occupancies@ == old(self).occupancies@
                    &&& final(self).next_occupancy_id == old(self).next_occupancy_id
                },
            },
    {
        let room_idx = match self.find_room_index(data.occupied_room_id) {
            Some(i) => i,
            None => {
                return Err(RoomError::NotFound(RoomNotFoundError));
            },
        };
        if self.find_occupancy_index(data.occupied_room_id).is_some() {
            return Err(RoomError::Occupied(RoomOccupiedError));
        }
        if self.next_occupancy_id == i32::MAX {
            return Err(RoomError::Internal(InternalServerError));
        }
        proof {
            lemma_room_for_index(*self, room_idx as int, data.occupied_room_id);
        }
        let occ = Occupancy {
            id: self.next_occupancy_id,
            occupied_room_id: data.occupied_room_id,
            occupied_until: data.occupied_until,
            meeting_title: data.meeting_title.clone(),
            comments: data.comments.clone(),
        };
        let room = &self.rooms[room_idx];
        let active = ActiveRoom {
            id: room.id,
            name: room.name.clone(),
            room_id: room.room_id.clone(),
            capacity: room.capacity.clone(),
            time_limit: room.time_limit.clone(),
            link: room.link.clone(),
            comments: room.comments.clone(),
            is_active: true,
            occupied_until: data.occupied_until,
            meeting_title: data.meeting_title,
            meeting_comments: data.comments,
        };
        let ghost added = occ;
        self.occupancies.push(occ);
        self.next_occupancy_id = self.next_occupancy_id + 1;
        proof {
            let os = self.occupancies@;
            let old_os = old(self).occupancies@;
            let n = old_os.len() as int;
            assert(added == old(self).fresh_occupancy(data));
            assert(os == old_os.push(added));
            assert(os[n].occupied_room_id == data.occupied_room_id);
            assert(self.has_active(data.occupied_room_id));
            assert(active == make_active(
                old(self).room_for(data.occupied_room_id),
                old(self).fresh_occupancy(data),
            ));
            assert forall|i: int, j: int| 0 <= i < j < os.len() implies os[i].id != os[j].id
                && os[i].occupied_room_id != os[j].occupied_room_id by {
                if j == n {
                    assert(os[i] == old_os[i]);
                    assert(os[j] == added);
                    assert(0 <= old_os[i].id < old(self).next_occupancy_id);
                    assert(old_os[i].occupied_room_id != data.occupied_room_id);
                } else {
                    assert(os[i] == old_os[i]);
                    assert(os[j] == old_os[j]);
                    assert(old_os[i].id != old_os[j].id);
                    assert(old_os[i].occupied_room_id != old_os[j].occupied_room_id);
                }
            }
            assert forall|i: int| 0 <= i < os.len() implies 0 <= #[trigger] os[i].id
                < self.next_occupancy_id by {
                if i < n {
                    assert(os[i] == old_os[i]);
                    assert(0 <= old_os[i].id < old(self).next_occupancy_id);
                } else {
                    assert(os[i] == added);
                    assert(added.id == old(self).next_occupancy_id);
                    assert(self.next_occupancy_id == old(self).next_occupancy_id + 1);
                }
            }
            assert forall|i: int| 0 <= i < os.len() implies self.room_exists(
                #[trigger] os[i].occupied_room_id,
            ) by {
                if i < n {
                    assert(os[i] == old_os[i]);
                    assert(old(self).room_exists(old_os[i].occupied_room_id));
                    let w = choose|k: int|
                        0 <= k < old(self).rooms@.len() && old(self).rooms@[k].id == old_os[i].occupied_room_id;
                    assert(self.rooms@[w].id == os[i].occupied_room_id);
                } else {
                    assert(self.rooms@[room_idx as int].id == os[i].occupied_room_id);
                }
            }
        }
        Ok(active)
    }

    /// Frees the room `id`: the room must exist and must currently be
    /// active. Its occupancy row is deleted from the ledger; a second free
    /// of the same room is rejected, not silently accepted.
    pub fn free(&mut self, id: u128) -> (r: Result<(), RoomError>)
        requires
            old(self).inv(),
        ensures
            final(self).inv(),
            final(self).rooms@ == old(self).rooms@,
            final(self).next_occupancy_id == old(self).next_occupancy_id,
            match r {
                Ok(_) => {
                    &&& old(self).free_err(id) is None
                    &&& final(self).occupancies@ == occupancies_without(old(self).occupancies@, id)
                    &&& !final(self).has_active(id)
                },
                Err(e) => {
                    &&& old(self).free_err(id) == Some(e)
                    &&& final(self).occupancies@ == old(self).occupancies@
                },
            },
    {
        if self.find_room_index(id).is_none() {
            return Err(RoomError::NotFound(RoomNotFoundError));
        }
        let idx = match self.find_occupancy_index(id) {
            Some(i) => i,
            None => {
                return Err(RoomError::NotOccupied(RoomNotOccupiedError));
            },
        };
        proof {
            assert forall|i: int|
                0 <= i < self.occupancies@.len() && i != idx as int implies #[trigger] self.occupancies@[i].occupied_room_id
                != id by {
                if i < idx as int {
                    assert(self.occupancies@[i].occupied_room_id
                        != self.occupancies@[idx as int].occupied_room_id);
                } else {
                    assert(self.occupancies@[idx as int].occupied_room_id
                        != self.occupancies@[i].occupied_room_id);
                }
            }
            lemma_remove_is_without(self.occupancies@, id, idx as int);
        }
        self.occupancies.remove(idx);
        proof {
            lemma_without_id_excludes(old(self).occupancies@, id);
            let os = self.occupancies@;
            let old_os = old(self).occupancies@;
            assert(os == old_os.remove(idx as int));
            assert forall|i: int| 0 <= i < os.len() implies #[trigger] os[i] == old_os[if i
                < idx as int {
                i
            } else {
                i + 1
            }] by {
                assert(os == old_os.subrange(0, idx as int) + old_os.subrange(
                    idx as int + 1,
                    old_os.len() as int,
                ));
            }
            assert forall|i: int, j: int| 0 <= i < j < os.len() implies os[i].id != os[j].id
                && os[i].occupied_room_id != os[j].occupied_room_id by {
                let ii = if i < idx as int { i } else { i + 1 };
                let jj = if j < idx as int { j } else { j + 1 };
                assert(os[i] == old_os[ii]);
                assert(os[j] == old_os[jj]);
                assert(old_os[ii].id != old_os[jj].id);
                assert(old_os[ii].occupied_room_id != old_os[jj].occupied_room_id);
            }
            assert forall|i: int| 0 <= i < os.len() implies 0 <= #[trigger] os[i].id
                < self.next_occupancy_id && self.room_exists(os[i].occupied_room_id) by {
                let ii = if i < idx as int { i } else { i + 1 };
                assert(os[i] == old_os[ii]);
                assert(0 <= old_os[ii].id < old(self).next_occupancy_id);
                assert(old(self).room_exists(old_os[ii].occupied_room_id));
                let w = choose|k: int|
                    0 <= k < old(self).rooms@.len() && old(self).rooms@[k].id == old_os[ii].occupied_room_id;
                assert(self.rooms@[w].id == os[i].occupied_room_id);
            }
        }
        Ok(())
    }
}

impl Store {
    /// The available view restricted to the first `n` room rows: those
    /// among them with no occupancy.
    pub open spec fn available_prefix(self, n: int) -> Seq<Room> {
        self.rooms@.take(n).filter(|r: Room| !self.has_active(r.id))
    }

    /// The available view: the rooms with no occupancy, in room order.
    pub open spec fn available_seq(self) -> Seq<Room> {
        self.available_prefix(self.rooms@.len() as int)
    }

    /// The active view restricted to the first `n` occupancy rows: each
    /// joined with its room.
    pub open spec fn active_prefix(self, n: int) -> Seq<ActiveRoom> {
        self.occupancies@.take(n).map_values(
            |o: Occupancy| make_active(self.room_for(o.occupied_room_id), o),
        )
    }

    /// The active view: every occupancy joined with its room, in ledger
    /// order.
    pub open spec fn active_seq(self) -> Seq<ActiveRoom> {
        self.active_prefix(self.occupancies@.len() as int)
    }

    /// The rooms with no active occupancy.
    pub fn available_rooms(&self) -> (v: Vec<Room>)
        ensures
            v@ == self.available_seq(),
    {
        let n = self.rooms.len();
        let mut v: Vec<Room> = Vec::new();
        let mut i: usize = 0;
        proof {
            assert(v@ =~= self.available_prefix(0)) by {
                reveal(Seq::filter);
                assert(self.rooms@.take(0) =~= Seq::<Room>::empty());
            }
        }
        while i < n
            invariant
                i <= n,
                n == self.rooms@.len(),
                v@ == self.available_prefix(i as int),
            decreases n - i,
        {
            proof {
                lemma_available_prefix_step(*self, i as int);
            }
            if self.find_occupancy_index(self.rooms[i].id).is_none() {
                v.push(self.rooms[i].clone());
            }
            i += 1;
        }
        proof {
            assert(self.rooms@.take(n as int) =~= self.rooms@);
        }
        v
    }

    /// The active rooms: each occupancy joined with the room it references.
    pub fn active_rooms(&self) -> (v: Vec<ActiveRoom>)
        requires
            self.inv(),
        ensures
            v@ == self.active_seq(),
    {
        let n = self.occupancies.len();
        let mut v: Vec<ActiveRoom> = Vec::new();
        let mut i: usize = 0;
        proof {
            assert(v@ =~= self.active_prefix(0)) by {
                assert(self.occupancies@.take(0) =~= Seq::<Occupancy>::empty());
            }
        }
        while i < n
            invariant
                self.inv(),
                i <= n,
                n == self.occupancies@.len(),
                v@ == self.active_prefix(i as int),
            decreases n - i,
        {
            let occ = &self.occupancies[i];
            let room_idx = match self.find_room_index(occ.occupied_room_id) {
                Some(k) => k,
                None => {
                    // Unreachable: the foreign key guarantees the room row.
                    proof {
                        assert(self.room_exists(self.occupancies@[i as int].occupied_room_id));
                        assert(false);
                    }
                    0
                },
            };
            proof {
                lemma_room_for_index(*self, room_idx as int, occ.occupied_room_id);
            }
            let room = &self.rooms[room_idx];
            let active = ActiveRoom {
                id: room.id,
                name: room.name.clone(),
                room_id: room.room_id.clone(),
                capacity: room.capacity.clone(),
                time_limit: room.time_limit.clone(),
                link: room.link.clone(),
                comments: room.comments.clone(),
                is_active: true,
                occupied_until: occ.occupied_until,
                meeting_title: occ.meeting_title.clone(),
                meeting_comments: occ.comments.clone(),
            };
            v.push(active);
            proof {
                assert(v@ =~= self.active_prefix(i as int + 1)) by {
                    assert(self.occupancies@.take(i as int + 1) =~= self.occupancies@.take(
                        i as int,
                    ).push(self.occupancies@[i as int]));
                }
            }
            i += 1;
        }
        proof {
            assert(self.occupancies@.take(n as int) =~= self.occupancies@);
        }
        v
    }

    /// Both read views at one observation point: the available rooms and
    /// the active rooms, over one snapshot of the store.
    pub fn current_state(&self) -> (state: CurrentState)
        requires
            self.inv(),
        ensures
            state.available@ == self.available_seq(),
            state.active@ == self.active_seq(),
    {
        let available = self.available_rooms();
        let active = self.active_rooms();
        CurrentState { available, active }
    }

    /// Looks a single room up by its identifier, independent of occupancy
    /// state.
    pub fn single_room(&self, id: u128) -> (r: Result<Room, RoomError>)
        requires
            self.inv(),
        ensures
            match r {
                Ok(room) => self.room_exists(id) && room == self.room_for(id),
                Err(e) => !self.room_exists(id) && e == RoomError::NotFound(RoomNotFoundError),
            },
    {
        match self.find_room_index(id) {
            Some(i) => {
                proof {
                    lemma_room_for_index(*self, i as int, id);
                }
                Ok(self.rooms[i].clone())
            },
            None => Err(RoomError::NotFound(RoomNotFoundError)),
        }
    }

    /// The full ledger of occupancy rows, in ledger order.
    pub fn list_occupancies(&self) -> (v: Vec<Occupancy>)
        ensures
            v@ == self.occupancies@,
    {
        let n = self.occupancies.len();
        let mut v: Vec<Occupancy> = Vec::new();
        let mut i: usize = 0;
        while i < n
            invariant
                i <= n,
                n == self.occupancies@.len(),
                v@ =~= self.occupancies@.take(i as int),
            decreases n - i,
        {
            v.push(self.occupancies[i].clone());
            proof {
                assert(v@ =~= self.occupancies@.take(i as int + 1));
            }
            i += 1;
        }
        proof {
            assert(self.occupancies@.take(n as int) =~= self.occupancies@);
        }
        v
    }
}

/// Extending the available view by one room row keeps it exactly when the
/// row has an occupancy, and appends it otherwise.
proof fn lemma_available_prefix_step(s: Store, n: int)
    requires
        0 <= n < s.rooms@.len(),
    ensures
        s.available_prefix(n + 1) == if s.has_active(s.rooms@[n].id) {
            s.available_prefix(n)
        } else {
            s.available_prefix(n).push(s.rooms@[n])
        },
{
    reveal(Seq::filter);
    assert(s.rooms@.take(n + 1).drop_last() =~= s.rooms@.take(n));
    assert(s.rooms@.take(n + 1).last() == s.rooms@[n]);
}

/// The ledger with every occupancy of the room `id` deleted.
pub open spec fn occupancies_without(s: Seq<Occupancy>, id: u128) -> Seq<Occupancy> {
    s.filter(|o: Occupancy| o.occupied_room_id != id)
}

/// The room identifiers of a sequence of room rows, in order.
pub open spec fn room_id_seq(rooms: Seq<Room>) -> Seq<u128> {
    rooms.map_values(|r: Room| r.id)
}

/// The room identifiers of a sequence of room rows, as a set.
pub open spec fn room_ids(rooms: Seq<Room>) -> Set<u128> {
    room_id_seq(rooms).to_set()
}

/// The room identifiers of a sequence of active view rows, in order.
pub open spec fn active_id_seq(rows: Seq<ActiveRoom>) -> Seq<u128> {
    rows.map_values(|a: ActiveRoom| a.id)
}

/// The room identifiers of a sequence of active view rows, as a set.
pub open spec fn active_ids(rows: Seq<ActiveRoom>) -> Set<u128> {
    active_id_seq(rows).to_set()
}

/// A set built by [`room_ids`] holds exactly the identifiers carried by
/// some row.
proof fn lemma_room_ids_contains(rooms: Seq<Room>, id: u128)
    ensures
        room_ids(rooms).contains(id) <==> exists|i: int|
            0 <= i < rooms.len() && #[trigger] rooms[i].id == id,
{
    assert forall|i: int| 0 <= i < rooms.len() implies #[trigger] room_id_seq(rooms)[i]
        == rooms[i].id by {}
    if room_ids(rooms).contains(id) {
        assert(room_id_seq(rooms).contains(id));
        let i = choose|i: int|
            0 <= i < room_id_seq(rooms).len() && room_id_seq(rooms)[i] == id;
        assert(rooms[i].id == id);
    }
    if exists|i: int| 0 <= i < rooms.len() && #[trigger] rooms[i].id == id {
        let i = choose|i: int| 0 <= i < rooms.len() && rooms[i].id == id;
        assert(room_id_seq(rooms)[i] == id);
        assert(room_id_seq(rooms).contains(id));
    }
}

/// A set built by [`active_ids`] holds exactly the identifiers carried by
/// some row.
proof fn lemma_active_ids_contains(rows: Seq<ActiveRoom>, id: u128)
    ensures
        active_ids(rows).contains(id) <==> exists|i: int|
            0 <= i < rows.len() && #[trigger] rows[i].id == id,
{
    assert forall|i: int| 0 <= i < rows.len() implies #[trigger] active_id_seq(rows)[i]
        == rows[i].id by {}
    if active_ids(rows).contains(id) {
        assert(active_id_seq(rows).contains(id));
        let i = choose|i: int|
            0 <= i < active_id_seq(rows).len() && active_id_seq(rows)[i] == id;
        assert(rows[i].id == id);
    }
    if exists|i: int| 0 <= i < rows.len() && #[trigger] rows[i].id == id {
        let i = choose|i: int| 0 <= i < rows.len() && rows[i].id == id;
        assert(active_id_seq(rows)[i] == id);
        assert(active_id_seq(rows).contains(id));
    }
}

/// Under the invariant, a specification-level lookup of an existing room
/// returns a row carrying the identifier looked up.
proof fn lemma_room_for_id(s: Store, id: u128)
    requires
        s.room_exists(id),
    ensures
        0 <= s.room_index_of(id) < s.rooms@.len(),
        s.room_for(id).id == id,
{
    let k = s.room_index_of(id);
    assert(0 <= k < s.rooms@.len() && s.rooms@[k].id == id);
}

/// Row `k` of the active view is the join row of occupancy `k`, and
/// carries that occupancy's room identifier.
proof fn lemma_active_seq_rows(s: Store)
    requires
        s.inv(),
    ensures
        s.active_seq().len() == s.occupancies@.len(),
        forall|k: int|
            0 <= k < s.occupancies@.len() ==> #[trigger] s.active_seq()[k] == make_active(
                s.room_for(s.occupancies@[k].occupied_room_id),
                s.occupancies@[k],
            ),
        forall|k: int|
            0 <= k < s.occupancies@.len() ==> #[trigger] s.active_seq()[k].id
                == s.occupancies@[k].occupied_room_id,
{
    let n = s.occupancies@.len() as int;
    assert(s.occupancies@.take(n) =~= s.occupancies@);
    assert forall|k: int| 0 <= k < n implies #[trigger] s.active_seq()[k] == make_active(
        s.room_for(s.occupancies@[k].occupied_room_id),
        s.occupancies@[k],
    ) by {}
    assert forall|k: int| 0 <= k < n implies #[trigger] s.active_seq()[k].id
        == s.occupancies@[k].occupied_room_id by {
        assert(s.room_exists(s.occupancies@[k].occupied_room_id));
        lemma_room_for_id(s, s.occupancies@[k].occupied_room_id);
    }
}

/// The rows of the available view are exactly the room rows with no
/// occupancy, kept in room order.
proof fn lemma_available_prefix_membership(s: Store, n: int)
    requires
        0 <= n <= s.rooms@.len(),
    ensures
        forall|k: int|
            0 <= k < s.available_prefix(n).len() ==> exists|i: int|
                0 <= i < n && #[trigger] s.available_prefix(n)[k] == s.rooms@[i],
        forall|k: int|
            0 <= k < s.available_prefix(n).len() ==> !s.has_active(
                #[trigger] s.available_prefix(n)[k].id,
            ),
        forall|i: int|
            0 <= i < n && !s.has_active(#[trigger] s.rooms@[i].id) ==> s.available_prefix(
                n,
            ).contains(s.rooms@[i]),
    decreases n,
{
    if n == 0 {
        reveal(Seq::filter);
        assert(s.rooms@.take(0) =~= Seq::<Room>::empty());
        assert(s.available_prefix(0).len() == 0);
    } else {
        lemma_available_prefix_membership(s, n - 1);
        lemma_available_prefix_step(s, n - 1);
        let prev = s.available_prefix(n - 1);
        let cur = s.available_prefix(n);
        if s.has_active(s.rooms@[n - 1].id) {
            assert(cur == prev);
            assert forall|i: int|
                0 <= i < n && !s.has_active(#[trigger] s.rooms@[i].id) implies cur.contains(
                s.rooms@[i],
            ) by {
                assert(i < n - 1);
                assert(prev.contains(s.rooms@[i]));
            }
        } else {
            assert(cur == prev.push(s.rooms@[n - 1]));
            assert forall|k: int| 0 <= k < cur.len() implies exists|i: int|
                0 <= i < n && #[trigger] cur[k] == s.rooms@[i] by {
                if k < prev.len() {
                    assert(cur[k] == prev[k]);
                    let i = choose|i: int| 0 <= i < n - 1 && prev[k] == s.rooms@[i];
                    assert(cur[k] == s.rooms@[i]);
                } else {
                    assert(cur[k] == s.rooms@[n - 1]);
                }
            }
            assert forall|k: int| 0 <= k < cur.len() implies !s.has_active(
                #[trigger] cur[k].id,
            ) by {
                if k < prev.len() {
                    assert(cur[k] == prev[k]);
                    assert(!s.has_active(prev[k].id));
                }
            }
            assert forall|i: int|
                0 <= i < n && !s.has_active(#[trigger] s.rooms@[i].id) implies cur.contains(
                s.rooms@[i],
            ) by {
                if i < n - 1 {
                    assert(prev.contains(s.rooms@[i]));
                    let k = choose|k: int| 0 <= k < prev.len() && prev[k] == s.rooms@[i];
                    assert(cur[k] == s.rooms@[i]);
                } else {
                    assert(cur[cur.len() - 1] == s.rooms@[i]);
                }
            }
        }
    }
}

impl Store {
    /// The identifiers of all room rows.
    pub open spec fn all_room_ids(self) -> Set<u128> {
        room_ids(self.rooms@)
    }

    /// The identifiers of the rooms the available view shows.
    pub open spec fn available_room_ids(self) -> Set<u128> {
        room_ids(self.available_seq())
    }

    /// The identifiers of the rooms the active view shows.
    pub open spec fn active_room_ids(self) -> Set<u128> {
        active_ids(self.active_seq())
    }
}

/// The available view shows exactly the rooms with no occupancy.
pub proof fn lemma_available_ids_iff(s: Store, id: u128)
    requires
        s.inv(),
    ensures
        s.available_room_ids().contains(id) <==> s.room_exists(id) && !s.has_active(id),
{
    let n = s.rooms@.len() as int;
    lemma_available_prefix_membership(s, n);
    lemma_room_ids_contains(s.available_seq(), id);
    if s.available_room_ids().contains(id) {
        let k = choose|k: int|
            0 <= k < s.available_seq().len() && s.available_seq()[k].id == id;
        let i = choose|i: int| 0 <= i < n && s.available_seq()[k] == s.rooms@[i];
        assert(s.rooms@[i].id == id);
        assert(!s.has_active(s.available_seq()[k].id));
    }
    if s.room_exists(id) && !s.has_active(id) {
        let i = choose|i: int| 0 <= i < s.rooms@.len() && s.rooms@[i].id == id;
        assert(!s.has_active(s.rooms@[i].id));
        assert(s.available_seq().contains(s.rooms@[i]));
        let k = choose|k: int|
            0 <= k < s.available_seq().len() && s.available_seq()[k] == s.rooms@[i];
        assert(s.available_seq()[k].id == id);
    }
}

/// The active view shows exactly the rooms with an occupancy.
pub proof fn lemma_active_ids_iff(s: Store, id: u128)
    requires
        s.inv(),
    ensures
        s.active_room_ids().contains(id) <==> s.has_active(id),
{
    lemma_active_seq_rows(s);
    lemma_active_ids_contains(s.active_seq(), id);
    if s.active_room_ids().contains(id) {
        let k = choose|k: int| 0 <= k < s.active_seq().len() && s.active_seq()[k].id == id;
        assert(s.occupancies@[k].occupied_room_id == id);
    }
    if s.has_active(id) {
        let k = choose|k: int|
            0 <= k < s.occupancies@.len() && s.occupancies@[k].occupied_room_id == id;
        assert(s.active_seq()[k].id == id);
    }
}

/// The two read views partition the room set: no room is in both, and
/// together they show every room.
pub proof fn lemma_views_partition(s: Store)
    requires
        s.inv(),
    ensures
        s.available_room_ids().intersect(s.active_room_ids()) =~= Set::<u128>::empty(),
        s.available_room_ids().union(s.active_room_ids()) =~= s.all_room_ids(),
{
    assert forall|id: u128|
        !(s.available_room_ids().contains(id) && s.active_room_ids().contains(id)) by {
        lemma_available_ids_iff(s, id);
        lemma_active_ids_iff(s, id);
    }
    assert forall|id: u128|
        s.available_room_ids().contains(id) || s.active_room_ids().contains(id)
            <==> s.all_room_ids().contains(id) by {
        lemma_available_ids_iff(s, id);
        lemma_active_ids_iff(s, id);
        lemma_room_ids_contains(s.rooms@, id);
        if s.has_active(id) {
            let k = choose|k: int|
                0 <= k < s.occupancies@.len() && s.occupancies@[k].occupied_room_id == id;
            assert(s.room_exists(s.occupancies@[k].occupied_room_id));
        }
    }
}

/// A room just created is shown by the available view: it exists and, as
/// no occupancy can have referenced it before it existed, it is not
/// active.
pub proof fn lemma_created_room_available(
    before: Store,
    after: Store,
    data: NewRoom,
    id: u128,
    room: Room,
)
    requires
        before.inv(),
        before.create_err(data, id) is None,
        room.id == id,
        after.rooms@ == before.rooms@.push(room),
        after.occupancies@ == before.occupancies@,
        after.inv(),
    ensures
        after.available_room_ids().contains(id),
{
    let n = before.rooms@.len() as int;
    assert(after.rooms@[n].id == id);
    assert(!after.has_active(id)) by {
        if after.has_active(id) {
            let k = choose|k: int|
                0 <= k < after.occupancies@.len() && after.occupancies@[k].occupied_room_id == id;
            assert(before.room_exists(before.occupancies@[k].occupied_room_id));
        }
    }
    lemma_available_ids_iff(after, id);
}

/// A room just occupied is shown by the active view immediately after.
pub proof fn lemma_occupied_room_shown(before: Store, after: Store, data: NewOccupancy)
    requires
        before.inv(),
        before.occupy_err(data) is None,
        after.rooms@ == before.rooms@,
        after.occupancies@ == before.occupancies@.push(before.fresh_occupancy(data)),
        after.inv(),
    ensures
        after.active_room_ids().contains(data.occupied_room_id),
{
    let n = before.occupancies@.len() as int;
    assert(after.occupancies@[n].occupied_room_id == data.occupied_room_id);
    lemma_active_ids_iff(after, data.occupied_room_id);
}

/// A room just freed is shown by the available view again.
pub proof fn lemma_freed_room_available(before: Store, after: Store, id: u128)
    requires
        before.inv(),
        before.free_err(id) is None,
        after.rooms@ == before.rooms@,
        after.occupancies@ == occupancies_without(before.occupancies@, id),
        after.inv(),
    ensures
        after.available_room_ids().contains(id),
{
    lemma_without_id_excludes(before.occupancies@, id);
    let i = choose|i: int| 0 <= i < before.rooms@.len() && before.rooms@[i].id == id;
    assert(after.rooms@[i].id == id);
    lemma_available_ids_iff(after, id);
}

/// Freeing a room empties its active occupancy, so an immediate second
/// free of the same room is rejected with the not-occupied error.
pub proof fn lemma_free_then_not_occupied(before: Store, after: Store, id: u128)
    requires
        before.inv(),
        before.free_err(id) is None,
        after.rooms@ == before.rooms@,
        after.occupancies@ == occupancies_without(before.occupancies@, id),
    ensures
        after.free_err(id) == Some(RoomError::NotOccupied(RoomNotOccupiedError)),
{
    lemma_without_id_excludes(before.occupancies@, id);
    let i = choose|i: int| 0 <= i < before.rooms@.len() && before.rooms@[i].id == id;
    assert(after.rooms@[i].id == id);
}

/// While a room stays occupied, any further occupy of the same room is
/// rejected with the occupied error: of concurrent occupy calls that the
/// store serializes, only the first can succeed.
pub proof fn lemma_occupy_excludes_second(
    before: Store,
    after: Store,
    first: NewOccupancy,
    second: NewOccupancy,
)
    requires
        before.inv(),
        before.occupy_err(first) is None,
        second.occupied_room_id == first.occupied_room_id,
        after.rooms@ == before.rooms@,
        after.occupancies@ == before.occupancies@.push(before.fresh_occupancy(first)),
    ensures
        after.occupy_err(second) == Some(RoomError::Occupied(RoomOccupiedError)),
{
    let i = choose|i: int|
        0 <= i < before.rooms@.len() && before.rooms@[i].id == first.occupied_room_id;
    assert(after.rooms@[i].id == second.occupied_room_id);
    let n = before.occupancies@.len() as int;
    assert(after.occupancies@[n].occupied_room_id == second.occupied_room_id);
}

/// Every row of [`occupancies_without`] references some other room.
proof fn lemma_without_id_excludes(s: Seq<Occupancy>, id: u128)
    ensures
        forall|i: int|
            0 <= i < occupancies_without(s, id).len() ==> #[trigger] occupancies_without(
                s,
                id,
            )[i].occupied_room_id != id,
    decreases s.len(),
{
    reveal(Seq::filter);
    if s.len() > 0 {
        lemma_without_id_excludes(s.drop_last(), id);
    }
}

/// Deleting the room `id` from a ledger that never references it changes
/// nothing.
proof fn lemma_without_id_absent(s: Seq<Occupancy>, id: u128)
    requires
        forall|i: int| 0 <= i < s.len() ==> #[trigger] s[i].occupied_room_id != id,
    ensures
        occupancies_without(s, id) == s,
    decreases s.len(),
{
    reveal(Seq::filter);
    if s.len() > 0 {
        lemma_without_id_absent(s.drop_last(), id);
        assert(occupancies_without(s, id) =~= s);
    } else {
        assert(occupancies_without(s, id) =~= s);
    }
}

/// When exactly the row at `idx` references the room `id`, deleting that
/// row is the same as deleting every row of the room.
proof fn lemma_remove_is_without(s: Seq<Occupancy>, id: u128, idx: int)
    requires
        0 <= idx < s.len(),
        s[idx].occupied_room_id == id,
        forall|i: int| 0 <= i < s.len() && i != idx ==> #[trigger] s[i].occupied_room_id != id,
    ensures
        s.remove(idx) == occupancies_without(s, id),
    decreases s.len(),
{
    reveal(Seq::filter);
    if idx == s.len() - 1 {
        lemma_without_id_absent(s.drop_last(), id);
        assert(s.remove(idx) =~= s.drop_last());
        assert(occupancies_without(s, id) == s.drop_last());
    } else {
        lemma_remove_is_without(s.drop_last(), id, idx);
        assert(s.drop_last()[idx] == s[idx]);
        assert(occupancies_without(s, id) == occupancies_without(s.drop_last(), id).push(s.last()));
        assert(s.remove(idx) =~= s.drop_last().remove(idx).push(s.last()));
    }
}

/// Under the store invariant, a room index found for `id` is the room the
/// specification-level lookup [`Store::room_for`] denotes.
proof fn lemma_room_for_index(s: Store, idx: int, id: u128)
    requires
        s.inv(),
        0 <= idx < s.rooms@.len(),
        s.rooms@[idx].id == id,
    ensures
        s.room_index_of(id) == idx,
        s.room_for(id) == s.rooms@[idx],
{
    assert(s.room_exists(id));
    let k = s.room_index_of(id);
    assert(0 <= k < s.rooms@.len() && s.rooms@[k].id == id) by {
        assert(s.room_exists(id));
    }
    if k < idx {
        assert(s.rooms@[k].id != s.rooms@[idx].id);
    } else if idx < k {
        assert(s.rooms@[idx].id != s.rooms@[k].id);
    }
}

} // verus!
