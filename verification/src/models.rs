//! Plain records of the room-booking core.
//!
//! Room identifiers are carried as `u128` values: the façade draws them as
//! UUIDs and hands them over as their 128-bit integer form. Timestamps are
//! carried as signed Unix seconds. Both stand for opaque outside values the
//! core only ever compares, so nothing beyond their bits is modelled.

use vstd::prelude::*;

verus! {

/// A room row: identity and static metadata.
#[derive(Debug)]
pub struct Room {
    /// Opaque unique identifier, generated at creation, immutable.
    pub id: u128,
    /// Human label, unique across all rooms.
    pub name: String,
    /// External/physical room code, unique across all rooms.
    pub room_id: String,
    /// Free-text capacity field; no numeric validation is enforced.
    pub capacity: String,
    /// Maximum meeting duration, rendered as `HH:MM:SS`.
    pub time_limit: String,
    pub link: String,
    pub comments: String,
}

impl Clone for Room {
    fn clone(&self) -> (other: Room)
        ensures
            other == *self,
    {
        Room {
            id: self.id,
            name: self.name.clone(),
            room_id: self.room_id.clone(),
            capacity: self.capacity.clone(),
            time_limit: self.time_limit.clone(),
            link: self.link.clone(),
            comments: self.comments.clone(),
        }
    }
}

/// The request body of a room creation: the same metadata as [`Room`], with
/// the duration still in minutes and no identifier yet.
#[derive(Debug)]
pub struct NewRoom {
    pub name: String,
    pub room_id: String,
    pub capacity: String,
    /// Maximum meeting duration in minutes; converted to `HH:MM:SS` on
    /// insertion.
    pub time_limit: u64,
    pub link: String,
    pub comments: String,
}

impl Clone for NewRoom {
    fn clone(&self) -> (other: NewRoom)
        ensures
            other == *self,
    {
        NewRoom {
            name: self.name.clone(),
            room_id: self.room_id.clone(),
            capacity: self.capacity.clone(),
            time_limit: self.time_limit,
            link: self.link.clone(),
            comments: self.comments.clone(),
        }
    }
}

/// An occupancy row: a single active booking of a room.
#[derive(Debug)]
pub struct Occupancy {
    /// Sequence-assigned identifier.
    pub id: i32,
    /// Foreign reference to exactly one [`Room`].
    pub occupied_room_id: u128,
    /// Unix seconds at which the booking ends.
    pub occupied_until: i64,
    pub meeting_title: String,
    pub comments: String,
}

impl Clone for Occupancy {
    fn clone(&self) -> (other: Occupancy)
        ensures
            other == *self,
    {
        Occupancy {
            id: self.id,
            occupied_room_id: self.occupied_room_id,
            occupied_until: self.occupied_until,
            meeting_title: self.meeting_title.clone(),
            comments: self.comments.clone(),
        }
    }
}

/// The request body of an occupy: the occupancy fields without the
/// sequence-assigned identifier.
#[derive(Debug)]
pub struct NewOccupancy {
    pub occupied_room_id: u128,
    /// Unix seconds at which the booking ends.
    pub occupied_until: i64,
    pub meeting_title: String,
    pub comments: String,
}

impl Clone for NewOccupancy {
    fn clone(&self) -> (other: NewOccupancy)
        ensures
            other == *self,
    {
        NewOccupancy {
            occupied_room_id: self.occupied_room_id,
            occupied_until: self.occupied_until,
            meeting_title: self.meeting_title.clone(),
            comments: self.comments.clone(),
        }
    }
}

/// An active room: the inner join of a [`Room`] with its current
/// [`Occupancy`].
#[derive(Debug)]
pub struct ActiveRoom {
    pub id: u128,
    pub name: String,
    pub room_id: String,
    pub capacity: String,
    pub time_limit: String,
    pub link: String,
    pub comments: String,
    /// Always `true`: the row exists only for rooms with an occupancy.
    pub is_active: bool,
    pub occupied_until: i64,
    pub meeting_title: String,
    pub meeting_comments: String,
}

impl Clone for ActiveRoom {
    fn clone(&self) -> (other: ActiveRoom)
        ensures
            other == *self,
    {
        ActiveRoom {
            id: self.id,
            name: self.name.clone(),
            room_id: self.room_id.clone(),
            capacity: self.capacity.clone(),
            time_limit: self.time_limit.clone(),
            link: self.link.clone(),
            comments: self.comments.clone(),
            is_active: self.is_active,
            occupied_until: self.occupied_until,
            meeting_title: self.meeting_title.clone(),
            meeting_comments: self.meeting_comments.clone(),
        }
    }
}

/// The join row for a room and its occupancy, as [`ActiveRoom`] carries it.
pub open spec fn make_active(room: Room, occ: Occupancy) -> ActiveRoom {
    ActiveRoom {
        id: room.id,
        name: room.name,
        room_id: room.room_id,
        capacity: room.capacity,
        time_limit: room.time_limit,
        link: room.link,
        comments: room.comments,
        is_active: true,
        occupied_until: occ.occupied_until,
        meeting_title: occ.meeting_title,
        meeting_comments: occ.comments,
    }
}

/// The two read views side by side: every room stands in exactly one of
/// them.
#[derive(Debug)]
pub struct CurrentState {
    pub available: Vec<Room>,
    pub active: Vec<ActiveRoom>,
}

} // verus!
