//! Disk-imaging core: removable-drive catalog, image-source resolution and the
//! write/verify engine, with the contracts that keep a flash away from system disks.
//! Beside it stand the record types and pure rules of the companion desktop tools
//! (calendar sync, mail deduplication, batch renaming).

pub mod calendar;
pub mod digest;
pub mod diskutil;
pub mod drives;
pub mod email;
pub mod engine;
pub mod image;
pub mod rename;
pub mod text;
