//! Core of a duty-roster calendar service: classifies roster entries into
//! duty-event types, decides which stored events are archived history,
//! synchronizes downloaded events into an event store without disturbing
//! archived rows, rewrites each event per its duty type, and normalizes
//! alarm triggers for the exported calendar.

pub mod api_response;
pub mod dateperhapstime_to_string;
pub mod duty_plan_event;
pub mod error;
pub mod is_archived;
pub mod load_calendar;
pub mod strutil;
pub mod transform_calendar_event;
pub mod update_calendar;
pub mod update_db;
