//! Pacing of a recorded feed played back to clients.
use vstd::prelude::*;

verus! {

/// A replayed feed pauses after each heartbeat line (one starting with
/// `$F`), so that it plays back at the pace at which it was recorded.
pub fn is_heartbeat_line(line: &[u8]) -> (r: bool)
    ensures
        r == (line@.len() >= 2 && line@[0] == 0x24u8 && line@[1] == 0x46u8),
{
    line.len() >= 2 && line[0] == 0x24u8 && line[1] == 0x46u8
}

} // verus!
