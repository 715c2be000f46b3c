//! Why a request is turned down, and what happens to a change that cannot be written to disk.

use vstd::prelude::*;
use crate::model::{SessionEntry, Store};

verus! {

/// Why a request is turned down.
#[derive(Clone, Copy, Debug, PartialEq, Eq, Structural)]
pub enum Refusal {
    /// Only the owner may do this.
    Unauthorized,
    /// A new place needs a position.
    LatLngRequired,
    /// A new place or trip needs a name.
    NameRequired,
    /// The category is none of those there are.
    InvalidCategory,
    VisitsNotArray,
    VisitNotObject,
    VisitDateNotText,
    VisitNoteNotText,
    ChecklistNotArray,
    ChecklistNotObject,
    ChecklistTextNotText,
    /// Neither a place to put the photograph in, nor what a new one needs.
    AssignIncomplete,
    PlaceNotFound,
    PhotoNotFound,
    TripNotFound,
    UnplacedNotFound,
    LikedPlaceNotFound,
    /// The same visitor left a message a moment ago.
    MessageTooSoon,
    MessageEmpty,
    /// The store could not be written; nothing was changed.
    WriteFailed,
}

/// The HTTP status of a refusal.
pub open spec fn refusal_status(e: Refusal) -> u16 {
    match e {
        Refusal::Unauthorized => 401,
        Refusal::LatLngRequired => 400,
        Refusal::NameRequired => 400,
        Refusal::InvalidCategory => 400,
        Refusal::VisitsNotArray => 400,
        Refusal::VisitNotObject => 400,
        Refusal::VisitDateNotText => 400,
        Refusal::VisitNoteNotText => 400,
        Refusal::ChecklistNotArray => 400,
        Refusal::ChecklistNotObject => 400,
        Refusal::ChecklistTextNotText => 400,
        Refusal::AssignIncomplete => 400,
        Refusal::PlaceNotFound => 404,
        Refusal::PhotoNotFound => 404,
        Refusal::TripNotFound => 404,
        Refusal::UnplacedNotFound => 404,
        Refusal::LikedPlaceNotFound => 404,
        Refusal::MessageTooSoon => 429,
        Refusal::MessageEmpty => 400,
        Refusal::WriteFailed => 500,
    }
}

/// The words of a refusal.
pub open spec fn refusal_message(e: Refusal) -> Seq<char> {
    match e {
        Refusal::Unauthorized => "unauthorized"@,
        Refusal::LatLngRequired => "lat/lng required"@,
        Refusal::NameRequired => "name required"@,
        Refusal::InvalidCategory => "invalid category"@,
        Refusal::VisitsNotArray => "visits must be array"@,
        Refusal::VisitNotObject => "visits element must be object"@,
        Refusal::VisitDateNotText => "visit date must be string"@,
        Refusal::VisitNoteNotText => "visit note must be string"@,
        Refusal::ChecklistNotArray => "checklist must be array"@,
        Refusal::ChecklistNotObject => "checklist element must be object"@,
        Refusal::ChecklistTextNotText => "checklist text must be string"@,
        Refusal::AssignIncomplete => "placeId or lat/lng/name required"@,
        Refusal::PlaceNotFound => "place not found"@,
        Refusal::PhotoNotFound => "photo not found"@,
        Refusal::TripNotFound => "trip not found"@,
        Refusal::UnplacedNotFound => "unplaced not found"@,
        Refusal::LikedPlaceNotFound => "地点不存在"@,
        Refusal::MessageTooSoon => "留言太频繁，请过一会儿再来"@,
        Refusal::MessageEmpty => "留言内容为空"@,
        Refusal::WriteFailed => "写盘失败，改动未保存"@,
    }
}

impl Refusal {
    /// The HTTP status.
    pub fn status(self) -> (r: u16)
        ensures
            r == refusal_status(self),
    {
        match self {
            Refusal::Unauthorized => 401,
            Refusal::LatLngRequired => 400,
            Refusal::NameRequired => 400,
            Refusal::InvalidCategory => 400,
            Refusal::VisitsNotArray => 400,
            Refusal::VisitNotObject => 400,
            Refusal::VisitDateNotText => 400,
            Refusal::VisitNoteNotText => 400,
            Refusal::ChecklistNotArray => 400,
            Refusal::ChecklistNotObject => 400,
            Refusal::ChecklistTextNotText => 400,
            Refusal::AssignIncomplete => 400,
            Refusal::PlaceNotFound => 404,
            Refusal::PhotoNotFound => 404,
            Refusal::TripNotFound => 404,
            Refusal::UnplacedNotFound => 404,
            Refusal::LikedPlaceNotFound => 404,
            Refusal::MessageTooSoon => 429,
            Refusal::MessageEmpty => 400,
            Refusal::WriteFailed => 500,
        }
    }

    /// The words.
    pub fn message(self) -> (r: &'static str)
        ensures
            r@ == refusal_message(self),
    {
        match self {
            Refusal::Unauthorized => "unauthorized",
            Refusal::LatLngRequired => "lat/lng required",
            Refusal::NameRequired => "name required",
            Refusal::InvalidCategory => "invalid category",
            Refusal::VisitsNotArray => "visits must be array",
            Refusal::VisitNotObject => "visits element must be object",
            Refusal::VisitDateNotText => "visit date must be string",
            Refusal::VisitNoteNotText => "visit note must be string",
            Refusal::ChecklistNotArray => "checklist must be array",
            Refusal::ChecklistNotObject => "checklist element must be object",
            Refusal::ChecklistTextNotText => "checklist text must be string",
            Refusal::AssignIncomplete => "placeId or lat/lng/name required",
            Refusal::PlaceNotFound => "place not found",
            Refusal::PhotoNotFound => "photo not found",
            Refusal::TripNotFound => "trip not found",
            Refusal::UnplacedNotFound => "unplaced not found",
            Refusal::LikedPlaceNotFound => "地点不存在",
            Refusal::MessageTooSoon => "留言太频繁，请过一会儿再来",
            Refusal::MessageEmpty => "留言内容为空",
            Refusal::WriteFailed => "写盘失败，改动未保存",
        }
    }
}

/// Whether the answer to a refused request says, besides the words, that it is not in order: where
/// the front end looks for that.
pub open spec fn flagged(e: Refusal) -> bool {
    e is Unauthorized || e is LikedPlaceNotFound || e is MessageTooSoon || e is MessageEmpty
        || e is WriteFailed
}

impl Refusal {
    /// Whether the answer says, besides the words, that the request is not in order.
    pub fn is_flagged(self) -> (r: bool)
        ensures
            r == flagged(self),
    {
        matches!(
            self,
            Refusal::Unauthorized | Refusal::LikedPlaceNotFound | Refusal::MessageTooSoon
                | Refusal::MessageEmpty | Refusal::WriteFailed
        )
    }
}

/// Closes a change of the store, once it is known whether the new store was written to disk: a
/// change that was not written is taken back, and the request refused.
pub fn settle(store: &mut Store, before: Store, saved: bool) -> (r: Result<(), Refusal>)
    ensures
        r == (if saved {
            Ok::<(), Refusal>(())
        } else {
            Err(Refusal::WriteFailed)
        }),
        *final(store) == (if saved {
            *old(store)
        } else {
            before
        }),
{
    if saved {
        Ok(())
    } else {
        *store = before;
        Err(Refusal::WriteFailed)
    }
}

/// Closes a change of the list of sessions, once it is known whether the new list was written to
/// disk: a change that was not written is taken back, and the request refused.
pub fn settle_sessions(
    sessions: &mut Vec<SessionEntry>,
    before: Vec<SessionEntry>,
    saved: bool,
) -> (r: Result<(), Refusal>)
    ensures
        r == (if saved {
            Ok::<(), Refusal>(())
        } else {
            Err(Refusal::WriteFailed)
        }),
        *final(sessions) == (if saved {
            *old(sessions)
        } else {
            before
        }),
{
    if saved {
        Ok(())
    } else {
        *sessions = before;
        Err(Refusal::WriteFailed)
    }
}

/// What is asked wrongly is answered with 400, what there is not with 404, what only the owner may
/// do with 401, what comes too soon with 429, and a full disk with 500.
pub proof fn law_the_status_of_a_refusal(e: Refusal)
    ensures
        refusal_status(e) == 401 <==> e is Unauthorized,
        refusal_status(e) == 404 <==> e is PlaceNotFound || e is PhotoNotFound || e is TripNotFound
            || e is UnplacedNotFound || e is LikedPlaceNotFound,
        refusal_status(e) == 429 <==> e is MessageTooSoon,
        refusal_status(e) == 500 <==> e is WriteFailed,
        refusal_status(e) == 400 <==> e is LatLngRequired || e is NameRequired
            || e is InvalidCategory || e is VisitsNotArray || e is VisitNotObject
            || e is VisitDateNotText || e is VisitNoteNotText || e is ChecklistNotArray
            || e is ChecklistNotObject || e is ChecklistTextNotText || e is AssignIncomplete
            || e is MessageEmpty,
{
}

/// What a request is turned down for is said in these words.
pub proof fn law_the_words_of_a_refusal()
    ensures
        refusal_message(Refusal::Unauthorized) == "unauthorized"@,
        refusal_message(Refusal::LatLngRequired) == "lat/lng required"@,
        refusal_message(Refusal::NameRequired) == "name required"@,
        refusal_message(Refusal::InvalidCategory) == "invalid category"@,
        refusal_message(Refusal::VisitsNotArray) == "visits must be array"@,
        refusal_message(Refusal::VisitNotObject) == "visits element must be object"@,
        refusal_message(Refusal::VisitDateNotText) == "visit date must be string"@,
        refusal_message(Refusal::VisitNoteNotText) == "visit note must be string"@,
        refusal_message(Refusal::ChecklistNotArray) == "checklist must be array"@,
        refusal_message(Refusal::ChecklistNotObject) == "checklist element must be object"@,
        refusal_message(Refusal::ChecklistTextNotText) == "checklist text must be string"@,
        refusal_message(Refusal::AssignIncomplete) == "placeId or lat/lng/name required"@,
        refusal_message(Refusal::PlaceNotFound) == "place not found"@,
        refusal_message(Refusal::PhotoNotFound) == "photo not found"@,
        refusal_message(Refusal::TripNotFound) == "trip not found"@,
        refusal_message(Refusal::UnplacedNotFound) == "unplaced not found"@,
        refusal_message(Refusal::LikedPlaceNotFound) == "地点不存在"@,
        refusal_message(Refusal::MessageTooSoon) == "留言太频繁，请过一会儿再来"@,
        refusal_message(Refusal::MessageEmpty) == "留言内容为空"@,
        refusal_message(Refusal::WriteFailed) == "写盘失败，改动未保存"@,
{
}

} // verus!
