//! What holds of the library as a whole, proved.

pub mod asking;
pub mod backups;
pub mod calls;
pub mod counting;
pub mod endings;
pub mod expansion;
pub mod locking;
pub mod messages;
pub mod places;
pub mod reading;
pub mod round_trip;
pub mod runs;
pub mod telling;
pub mod texts;
pub mod titles;
pub mod unlocking;
pub mod views;
pub mod writing;
