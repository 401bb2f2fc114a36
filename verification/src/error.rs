//! Error types of the library. Each variant carries plain values that say
//! which input was at fault.

use vstd::prelude::*;
use crate::dateperhapstime_to_string::CivilDateTime;

verus! {

/// Failure of converting a date-or-datetime value to its stored text form.
#[derive(Debug, Clone, PartialEq, Eq)]
pub enum DatePerhapsTimeToStringError {
    /// The local time cannot be mapped to UTC unambiguously (it falls into a
    /// fold or a gap of the timezone), or the mapped year is not representable.
    LocalTimeMapping { ldt: CivilDateTime, tz: String },
    /// The timezone name is not a known timezone.
    TimezoneParsing { tzid: String },
}

/// A reserve event whose description lies outside the closed set of known
/// values: an invariant violation that upstream classification is supposed
/// to make impossible, fatal to the current pass.
#[derive(Debug, Clone, PartialEq, Eq)]
pub struct InvalidReserveDescription {
    pub description: String,
}

/// Failure of loading the calendar back from the event store.
#[derive(Debug, Clone, PartialEq, Eq)]
pub enum LoadCalendarError {
    /// A stored row misses one of its optional columns and cannot be read
    /// back as a full calendar event.
    IncompleteRow,
}

/// Failure of parsing a stored date or datetime text into an instant.
#[derive(Debug, Clone, PartialEq, Eq)]
pub struct DateTimeParseError {
    /// The text that none of the accepted shapes could parse.
    pub input: String,
}

} // verus!
