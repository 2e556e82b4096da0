use vstd::prelude::*;

use crate::marker::{
    lemma_marker_line_port, lemma_unmarked_line_port, line_port, marker_at, marker_bytes,
    parse_port_bytes,
};
use crate::port::{decimal, is_valid_port};
use crate::registry::{slot_ok, SlotWrite};

verus! {

/// The name of the event that announces a discovered port to listeners.
pub const READY_EVENT: &'static str = "sidecar_ready";

/// What the supervisor asks for after an event: a change of the shared slot,
/// and a port to announce to listeners, if any.
#[derive(Clone, Copy, Debug, PartialEq, Eq, Structural)]
pub struct Step {
    pub write: SlotWrite,
    pub publish: Option<u16>,
}

/// A step that changes nothing and announces nothing.
pub open spec fn quiet() -> Step {
    Step { write: SlotWrite::Keep, publish: None }
}

/// The step that ends a process generation, or starts a new one: the slot
/// is emptied so that no caller is served a port of a dead child.
pub open spec fn reset() -> Step {
    Step { write: SlotWrite::Clear, publish: None }
}

/// The port known after a line of output, and the step it calls for. A port is
/// stored and announced when it differs from the one already known in this
/// generation; a repeat of the known port, or a line without one, changes
/// nothing.
pub open spec fn line_step(known: Option<u16>, line: Seq<u8>) -> (Option<u16>, Step) {
    match line_port(line) {
        None => (known, quiet()),
        Some(p) => if known == Some(p) {
            (known, quiet())
        } else {
            (Some(p), Step { write: SlotWrite::Store(p), publish: Some(p) })
        },
    }
}

/// Decides, event by event, what follows from the output and the life of one
/// sidecar child at a time.
pub struct Supervisor {
    known: Option<u16>,
}

impl Supervisor {
    #[verifier::type_invariant]
    spec fn inv(self) -> bool {
        slot_ok(self.known)
    }

    /// The port discovered in the current process generation, if any.
    pub closed spec fn view(&self) -> Option<u16> {
        self.known
    }

    /// A supervisor before any child has run.
    pub fn new() -> (r: Supervisor)
        ensures
            r.view() == None::<u16>,
    {
        Supervisor { known: None }
    }

    /// The port discovered in the current process generation, if any.
    pub fn current_port(&self) -> (r: Option<u16>)
        ensures
            r == self.view(),
            slot_ok(r),
    {
        proof {
            use_type_invariant(self);
        }
        self.known
    }

    /// A new child has been started: what was known of the last one is stale.
    pub fn on_spawn(&mut self) -> (r: Step)
        ensures
            final(self).view() == None::<u16>,
            r == reset(),
    {
        self.known = None;
        Step { write: SlotWrite::Clear, publish: None }
    }

    /// The child has exited, or its output can no longer be read.
    pub fn on_exit(&mut self) -> (r: Step)
        ensures
            final(self).view() == None::<u16>,
            r == reset(),
    {
        self.known = None;
        Step { write: SlotWrite::Clear, publish: None }
    }

    /// A complete line of the child's standard output.
    pub fn on_line(&mut self, line: &[u8]) -> (r: Step)
        ensures
            (final(self).view(), r) == line_step(old(self).view(), line@),
            r.write matches SlotWrite::Store(p) ==> is_valid_port(p as int),
            slot_ok(final(self).view()),
    {
        proof {
            use_type_invariant(&*self);
        }
        match parse_port_bytes(line) {
            None => Step { write: SlotWrite::Keep, publish: None },
            Some(p) => {
                if self.known == Some(p) {
                    Step { write: SlotWrite::Keep, publish: None }
                } else {
                    self.known = Some(p);
                    Step { write: SlotWrite::Store(p), publish: Some(p) }
                }
            },
        }
    }
}

/// A line in which no marker is followed by a digit leaves the supervisor's
/// knowledge as it was, and asks for no change of the slot and no
/// announcement.
pub proof fn lemma_unmarked_line_is_quiet(known: Option<u16>, line: Seq<u8>)
    requires
        forall|i: int| !marker_at(line, i),
    ensures
        line_step(known, line) == (known, quiet()),
{
    lemma_unmarked_line_port(line);
}

/// A port is announced once per process generation: the first line that
/// gives it announces it unless it is already known, and the same line seen
/// again right after announces nothing and changes nothing.
pub proof fn lemma_repeated_line_is_quiet(known: Option<u16>, line: Seq<u8>)
    requires
        line_port(line) is Some,
    ensures
        line_step(known, line).1.publish == (if known == line_port(line) {
            None::<u16>
        } else {
            line_port(line)
        }),
        line_step(known, line).0 == line_port(line),
        line_step(line_step(known, line).0, line) == (line_step(known, line).0, quiet()),
{
}

/// In a fresh process generation, the line made of the marker and a valid
/// port stores and announces that port.
pub proof fn lemma_fresh_generation_discovers(p: nat)
    requires
        is_valid_port(p as int),
    ensures
        line_step(None, marker_bytes() + decimal(p)) == (
            Some(p as u16),
            Step { write: SlotWrite::Store(p as u16), publish: Some(p as u16) },
        ),
{
    lemma_marker_line_port(p);
}

} // verus!
