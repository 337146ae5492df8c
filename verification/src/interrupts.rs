//! The interrupt queue: interruptive events wait in it, in the order in
//! which they came, while an answer streams.

use crate::protocol::{event_views, Event, EventMsg, EventMsgView, EventView};
use vstd::prelude::*;

verus! {

/// An event is deferrable where handling it at once would split a line of
/// the answer that streams: the begin and end of commands and tool calls,
/// the end of a patch, and the requests for approval.
pub open spec fn is_deferrable(msg: EventMsgView) -> bool {
    msg is ExecCommandBegin || msg is ExecCommandEnd || msg is PatchApplyEnd
        || msg is McpToolCallBegin || msg is McpToolCallEnd || msg is ExecApprovalRequest
        || msg is ApplyPatchApprovalRequest
}

/// Whether an event is deferrable.
pub fn deferrable(msg: &EventMsg) -> (r: bool)
    ensures
        r == is_deferrable(msg@),
{
    match msg {
        EventMsg::ExecCommandBegin { .. } => true,
        EventMsg::ExecCommandEnd { .. } => true,
        EventMsg::PatchApplyEnd { .. } => true,
        EventMsg::McpToolCallBegin { .. } => true,
        EventMsg::McpToolCallEnd { .. } => true,
        EventMsg::ExecApprovalRequest { .. } => true,
        EventMsg::ApplyPatchApprovalRequest { .. } => true,
        _ => false,
    }
}

/// The queue of deferred events, oldest first.
#[derive(Debug)]
pub struct InterruptManager {
    pub queue: Vec<Event>,
}

impl View for InterruptManager {
    type V = Seq<EventView>;

    open spec fn view(&self) -> Seq<EventView> {
        event_views(self.queue@)
    }
}

impl InterruptManager {
    /// The empty queue.
    pub fn new() -> (r: InterruptManager)
        ensures
            r@ == Seq::<EventView>::empty(),
    {
        let r = InterruptManager { queue: Vec::new() };
        assert(r@ =~= Seq::<EventView>::empty());
        r
    }

    /// Whether no event waits.
    pub fn is_empty(&self) -> (r: bool)
        ensures
            r == (self@.len() == 0),
    {
        self.queue.len() == 0
    }

    /// Puts an event behind those that wait.
    pub fn push(&mut self, event: Event)
        ensures
            final(self)@ == old(self)@.push(event@),
    {
        let ghost before = self@;
        self.queue.push(event);
        assert(self@ =~= before.push(event@));
    }

    /// Takes the oldest event out of the queue.
    pub fn pop_front(&mut self) -> (r: Option<Event>)
        ensures
            old(self)@.len() == 0 ==> r is None && final(self)@ == old(self)@,
            old(self)@.len() > 0 ==> r is Some && r->0@ == old(self)@[0] && final(self)@ == old(
                self,
            )@.drop_first(),
    {
        if self.queue.len() == 0 {
            None
        } else {
            let ghost before = self@;
            let event = self.queue.remove(0);
            assert(self@ =~= before.drop_first());
            assert(before[0] == event@);
            Some(event)
        }
    }

    /// Takes all events out of the queue and gives them as a queue of their
    /// own.
    pub fn take_all(&mut self) -> (r: InterruptManager)
        ensures
            r@ == old(self)@,
            final(self)@ == Seq::<EventView>::empty(),
    {
        let mut taken: Vec<Event> = Vec::new();
        core::mem::swap(&mut taken, &mut self.queue);
        assert(self@ =~= Seq::<EventView>::empty());
        InterruptManager { queue: taken }
    }
}

} // verus!
