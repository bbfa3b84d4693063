//! Error taxonomy of the room-booking core.
//!
//! Each kind of fault has a marker struct of its own, so that the HTTP
//! façade can tell them apart when it turns a failed operation into a wire
//! response; [`RoomError`] gathers the markers into the one type that every
//! operation returns on failure. The status code and message that the façade
//! should answer with are fixed here as well, so that nothing about the
//! response is left to the boundary layer.

use vstd::prelude::*;
use vstd::string::StringExecFns;

verus! {

/// An unexpected store failure: connection loss, a constraint violation not
/// otherwise classified, or an exhausted identifier sequence.
#[derive(Clone, Copy, Debug, PartialEq, Eq, Structural)]
pub struct InternalServerError;

/// A lookup, occupy or free referenced a room id with no matching row.
#[derive(Clone, Copy, Debug, PartialEq, Eq, Structural)]
pub struct RoomNotFoundError;

/// A create would have violated the uniqueness of room names.
#[derive(Clone, Copy, Debug, PartialEq, Eq, Structural)]
pub struct RoomWithNameExistsError;

/// A create would have violated the uniqueness of room codes.
#[derive(Clone, Copy, Debug, PartialEq, Eq, Structural)]
pub struct RoomWithIdExistsError;

/// An occupy was attempted on a room with an existing active occupancy.
#[derive(Clone, Copy, Debug, PartialEq, Eq, Structural)]
pub struct RoomOccupiedError;

/// A free was attempted on a room with no active occupancy.
#[derive(Clone, Copy, Debug, PartialEq, Eq, Structural)]
pub struct RoomNotOccupiedError;

/// The typed error that every core operation returns on failure. Each
/// variant carries the marker struct that the façade rejects with.
#[derive(Clone, Copy, Debug, PartialEq, Eq, Structural)]
pub enum RoomError {
    Internal(InternalServerError),
    NotFound(RoomNotFoundError),
    NameExists(RoomWithNameExistsError),
    IdExists(RoomWithIdExistsError),
    Occupied(RoomOccupiedError),
    NotOccupied(RoomNotOccupiedError),
}

impl RoomError {
    /// The HTTP status code the façade answers with for this error.
    pub open spec fn spec_status_code(self) -> u16 {
        match self {
            RoomError::Internal(_) => 500,
            RoomError::NotFound(_) => 404,
            RoomError::NameExists(_) => 400,
            RoomError::IdExists(_) => 400,
            RoomError::Occupied(_) => 400,
            RoomError::NotOccupied(_) => 400,
        }
    }

    /// The user-facing message the façade answers with for this error.
    pub open spec fn spec_message(self) -> Seq<char> {
        match self {
            RoomError::Internal(_) => "Internal server error"@,
            RoomError::NotFound(_) => "Requested room does not exist"@,
            RoomError::NameExists(_) => "Room with same name exists"@,
            RoomError::IdExists(_) => "Room with same room id exists"@,
            RoomError::Occupied(_) => "Room is already occupied, check selected room"@,
            RoomError::NotOccupied(_) => "Room is not occupied, check selected room"@,
        }
    }

    pub fn status_code(&self) -> (code: u16)
        ensures
            code == self.spec_status_code(),
    {
        match self {
            RoomError::Internal(_) => 500,
            RoomError::NotFound(_) => 404,
            RoomError::NameExists(_) => 400,
            RoomError::IdExists(_) => 400,
            RoomError::Occupied(_) => 400,
            RoomError::NotOccupied(_) => 400,
        }
    }

    pub fn message(&self) -> (msg: String)
        ensures
            msg@ == self.spec_message(),
    {
        match self {
            RoomError::Internal(_) => String::from_str("Internal server error"),
            RoomError::NotFound(_) => String::from_str("Requested room does not exist"),
            RoomError::NameExists(_) => String::from_str("Room with same name exists"),
            RoomError::IdExists(_) => String::from_str("Room with same room id exists"),
            RoomError::Occupied(_) => String::from_str(
                "Room is already occupied, check selected room",
            ),
            RoomError::NotOccupied(_) => String::from_str(
                "Room is not occupied, check selected room",
            ),
        }
    }
}

} // verus!
