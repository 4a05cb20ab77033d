//! The event type produced by the stream decoder.

use vstd::prelude::*;

verus! {

/// Mathematical model of one response event: the decoded text and the
/// end-of-turn flag.
pub ghost struct EventView {
    pub text: Seq<char>,
    pub done: bool,
}

/// One unit of incremental output. `done == true` marks an explicit
/// end-of-turn signal or stream termination; `text` may be empty when the
/// event carries only a termination signal.
#[derive(Debug, Clone)]
pub struct StreamResponse {
    pub text: String,
    pub done: bool,
}

impl View for StreamResponse {
    type V = EventView;

    open spec fn view(&self) -> EventView {
        EventView { text: self.text@, done: self.done }
    }
}

/// The views of a sequence of events, element by element.
pub open spec fn views_of(s: Seq<StreamResponse>) -> Seq<EventView> {
    s.map_values(|e: StreamResponse| e@)
}

} // verus!
