//! Timetable planning: choose one section per course so that no two chosen
//! sections meet at the same time, score every such choice, and browse the
//! scored choices in order.

pub mod time;
pub mod conflict;
pub mod section;
pub mod catalog;
pub mod fitness;
pub mod scheduler;
pub mod present;
pub mod spinner;
pub mod text;
pub mod listing;
