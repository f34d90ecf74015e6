//! The provider types, as they are stored.

use vstd::prelude::*;

verus! {

pub const CALDAV: &'static str = "caldav";

pub const EWS: &'static str = "ews";

pub const BASECAMP: &'static str = "basecamp";

} // verus!
