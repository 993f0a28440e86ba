//! RMonitor commands are represented in messages by ASCII strings.
use vstd::prelude::*;

verus! {

pub const HEARTBEAT: &'static str = "$F";

pub const COMPETITOR: &'static str = "$A";

pub const COMPETITOR_EXT: &'static str = "$COMP";

pub const RUN: &'static str = "$B";

pub const CLASS: &'static str = "$C";

pub const SETTING: &'static str = "$E";

pub const RACE: &'static str = "$G";

pub const PRAC_QUAL: &'static str = "$H";

pub const INIT: &'static str = "$I";

pub const PASSING: &'static str = "$J";

pub const CORRECTION: &'static str = "$COR";

// IMSA enhanced protocol messages
pub const LINE_CROSSING: &'static str = "$L";

pub const TRACK_DESCRIPTION: &'static str = "$T";

} // verus!
