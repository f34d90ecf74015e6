//! Calendar back-ends: the values that every one of them speaks in.

use vstd::prelude::*;
use crate::text;

pub mod factory;
pub mod source;

verus! {

/// A calendar of a back-end.
#[derive(Debug)]
pub struct RemoteCalendar {
    pub id: String,
    pub display_name: Option<String>,
    pub color: Option<String>,
    /// Moves when something in the calendar changes.
    pub change_marker: Option<String>,
    pub sync_state: Option<String>,
}

/// A calendar, as contracts speak of it.
pub struct CalendarView {
    pub id: Seq<char>,
    pub display_name: Option<Seq<char>>,
    pub color: Option<Seq<char>>,
    pub change_marker: Option<Seq<char>>,
    pub sync_state: Option<Seq<char>>,
}

impl View for RemoteCalendar {
    type V = CalendarView;

    open spec fn view(&self) -> CalendarView {
        CalendarView {
            id: self.id@,
            display_name: text::opt_string_view(self.display_name),
            color: text::opt_string_view(self.color),
            change_marker: text::opt_string_view(self.change_marker),
            sync_state: text::opt_string_view(self.sync_state),
        }
    }
}

/// An event of a back-end, as calendar text.
#[derive(Debug)]
pub struct RawEvent {
    pub remote_id: String,
    pub ical: String,
}

/// The events of a calendar, and whether these are all of them.
#[derive(Debug)]
pub struct EventSnapshot {
    pub events: Vec<RawEvent>,
    /// An incomplete snapshot says nothing about the events it lacks: they were not read, not
    /// deleted.
    pub complete: bool,
}

} // verus!
