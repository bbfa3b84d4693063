use rooms::errors::{
    InternalServerError, RoomError, RoomNotFoundError, RoomNotOccupiedError, RoomOccupiedError,
    RoomWithIdExistsError, RoomWithNameExistsError,
};

#[test]
fn status_codes_follow_the_taxonomy() {
    assert_eq!(RoomError::Internal(InternalServerError).status_code(), 500);
    assert_eq!(RoomError::NotFound(RoomNotFoundError).status_code(), 404);
    assert_eq!(RoomError::NameExists(RoomWithNameExistsError).status_code(), 400);
    assert_eq!(RoomError::IdExists(RoomWithIdExistsError).status_code(), 400);
    assert_eq!(RoomError::Occupied(RoomOccupiedError).status_code(), 400);
    assert_eq!(RoomError::NotOccupied(RoomNotOccupiedError).status_code(), 400);
}

#[test]
fn messages_follow_the_taxonomy() {
    assert_eq!(RoomError::Internal(InternalServerError).message(), "Internal server error");
    assert_eq!(
        RoomError::NotFound(RoomNotFoundError).message(),
        "Requested room does not exist"
    );
    assert_eq!(
        RoomError::NameExists(RoomWithNameExistsError).message(),
        "Room with same name exists"
    );
    assert_eq!(
        RoomError::IdExists(RoomWithIdExistsError).message(),
        "Room with same room id exists"
    );
    assert_eq!(
        RoomError::Occupied(RoomOccupiedError).message(),
        "Room is already occupied, check selected room"
    );
    assert_eq!(
        RoomError::NotOccupied(RoomNotOccupiedError).message(),
        "Room is not occupied, check selected room"
    );
}
