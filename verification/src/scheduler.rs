//! QoS priority classes: `interactive` (assistant, foreground) preempts
//! `background` (indexing, batch).

use crate::text::str_eq;
use vstd::prelude::*;

verus! {

#[derive(Debug, Clone, Copy, PartialEq, Eq, Structural)]
pub enum Priority {
    Interactive,
    Background,
}

impl Priority {
    /// `"background"` selects the background class; anything else,
    /// including no value, is interactive.
    pub fn parse(s: Option<&str>) -> (p: Priority)
        ensures
            p == (if s matches Some(v) && v@ == "background"@ {
                Priority::Background
            } else {
                Priority::Interactive
            }),
    {
        match s {
            Some(v) => if str_eq(v, "background") {
                Priority::Background
            } else {
                Priority::Interactive
            },
            None => Priority::Interactive,
        }
    }
}

/// How an arriving stream gets its generation slot.
#[derive(Debug, Clone, Copy, PartialEq, Eq, Structural)]
pub enum Acquire {
    /// A slot is free: take it now.
    Take,
    /// Abort every running background stream, then wait for the slot
    /// they free.
    PreemptThenWait,
    /// Wait for a slot.
    Wait,
}

/// Interactive requests take a free slot or preempt the background;
/// background requests wait their turn.
pub fn on_arrival(priority: Priority, slot_free: bool) -> (a: Acquire)
    ensures
        a == (match priority {
            Priority::Interactive => if slot_free {
                Acquire::Take
            } else {
                Acquire::PreemptThenWait
            },
            Priority::Background => Acquire::Wait,
        }),
{
    match priority {
        Priority::Interactive => if slot_free {
            Acquire::Take
        } else {
            Acquire::PreemptThenWait
        },
        Priority::Background => Acquire::Wait,
    }
}

/// Whether a stream that ended (aborted or not) reports preemption to
/// its consumer: only an aborted background stream does.
pub fn ends_preempted(priority: Priority, aborted: bool) -> (b: bool)
    ensures
        b == (priority == Priority::Background && aborted),
{
    match priority {
        Priority::Background => aborted,
        Priority::Interactive => false,
    }
}

/// An interactive request never waits behind background work: when no
/// slot is free it preempts, and it never merely waits.
pub proof fn lemma_interactive_never_waits(slot_free: bool)
    ensures
        match (if slot_free { Acquire::Take } else { Acquire::PreemptThenWait }) {
            Acquire::Wait => false,
            _ => true,
        },
{
}

} // verus!
