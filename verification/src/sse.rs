//! Server-Sent-Events framing and the driver's decision step.
//!
//! The driver loop around a connection repeatedly awaits the next
//! event of a producer; the step here decides, for each produced
//! value, what the loop must do: write one fully assembled frame, or
//! stop and let the connection close, emitting no further bytes.

use vstd::prelude::*;
use vstd::string::{StrSliceExecFns, StringExecFns};

verus! {

/// One server-sent event.
pub struct SseEvent {
    pub name: String,
    pub data: String,
}

/// The exact wire frame of an event:
/// `event: {name}\ndata: {data}\n\n`.
pub open spec fn spec_frame(name: Seq<char>, data: Seq<char>) -> Seq<char> {
    "event: "@ + name + "\ndata: "@ + data + "\n\n"@
}

impl SseEvent {
    /// Assembles the event's frame fully in memory, so it can be
    /// written to the connection in one operation.
    pub fn frame(&self) -> (r: String)
        ensures
            r@ == spec_frame(self.name@, self.data@),
    {
        let mut s = String::new();
        s.append("event: ");
        s.append(self.name.as_str());
        s.append("\ndata: ");
        s.append(self.data.as_str());
        s.append("\n\n");
        proof {
            assert(s@ =~= spec_frame(self.name@, self.data@));
        }
        s
    }
}

/// What the driver loop does with one produced value.
pub enum SseAction {
    /// Write this fully assembled frame in one operation, then
    /// continue with the next event.
    Write(String),
    /// End of stream: stop, emitting no further bytes.
    Stop,
}

/// The driver's decision for one produced value: an event becomes
/// exactly its frame, in producer order; end of stream stops the loop.
pub fn sse_step(event: Option<SseEvent>) -> (r: SseAction)
    ensures
        event matches Some(e) ==> r matches SseAction::Write(f) && f@ == spec_frame(
            e.name@,
            e.data@,
        ),
        event is None ==> r is Stop,
{
    match event {
        Some(e) => SseAction::Write(e.frame()),
        None => SseAction::Stop,
    }
}

} // verus!
