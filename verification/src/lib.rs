//! A self-hosted travel map: the rules behind its places, trips, photographs, guest book,
//! sessions, backups and map tiles.

pub mod backup;
pub mod codes;
pub mod guestbook;
pub mod json;
pub mod migrate;
pub mod model;
pub mod names;
pub mod photo;
pub mod places;
pub mod privacy;
pub mod reply;
pub mod session;
pub mod settings;
pub mod share;
pub mod table;
pub mod text;
pub mod tiff;
pub mod tiles;
pub mod trips;
pub mod unplaced;
pub mod upload;
