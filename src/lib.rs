//! Weekly availability from iCalendar feeds, and the data of a personal
//! academic homepage.
//!
//! The calendar pipeline reads `VEVENT` blocks out of ICS text, expands their
//! recurrence rules up to a horizon, moves every occurrence into the display
//! time zone, and classifies the five-minute slots of a week grid.
use vstd::prelude::*;

pub mod civil;
pub mod text;
pub mod stamp;
pub mod ics;
pub mod rrule;
pub mod expand;
pub mod feed;
pub mod grid;
pub mod publication;
pub mod resources;
pub mod sheet;
pub mod routes;

verus! {

} // verus!
