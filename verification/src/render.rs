//! Per-output render requests and the capture-attachment filter.

use vstd::prelude::*;
use crate::types::{OutputId, PendingCapture, SessionType, session_output};

verus! {

/// A request to render one output's next frame, optionally carrying the
/// capture sessions that must be attached to that frame.
#[derive(Clone, PartialEq, Eq, Debug)]
pub struct RenderRequest {
    pub output: OutputId,
    /// `None` when no capture bookkeeping was touched at all during the
    /// commit; `Some` (possibly empty) once any batch entry or drained
    /// output queue existed.
    pub sessions: Option<Vec<PendingCapture>>,
}

/// Entries whose session targets this output.
pub open spec fn targets_output(e: PendingCapture, output: OutputId) -> bool {
    session_output(e.session.session_type) == output
}

/// Restricts a combined capture batch to the sessions whose target output
/// component equals `output`, keeping their order.
pub fn filter_for_output(sessions: &Vec<PendingCapture>, output: OutputId) -> (r: Vec<
    PendingCapture,
>)
    ensures
        r@ == sessions@.filter(|e: PendingCapture| targets_output(e, output)),
{
    let ghost pred = |e: PendingCapture| targets_output(e, output);
    let mut picked: Vec<PendingCapture> = Vec::new();
    let mut i: usize = 0;
    while i < sessions.len()
        invariant
            i <= sessions.len(),
            picked@ == sessions@.subrange(0, i as int).filter(pred),
            pred == (|e: PendingCapture| targets_output(e, output)),
        decreases sessions.len() - i,
    {
        let entry = sessions[i];
        let ghost pre = sessions@.subrange(0, i as int);
        let ghost post = sessions@.subrange(0, i as int + 1);
        proof {
            assert(post.drop_last() =~= pre);
            assert(post.last() == sessions@[i as int]);
        }
        let matches_output = match entry.session.session_type {
            SessionType::Output { output: o } => o == output,
            SessionType::Workspace { output: o, .. } => o == output,
        };
        if matches_output {
            picked.push(entry);
            proof {
                reveal_with_fuel(Seq::<PendingCapture>::filter, 2);
                assert(pred(entry));
                assert(picked@ =~= post.filter(pred));
            }
        } else {
            proof {
                reveal_with_fuel(Seq::<PendingCapture>::filter, 2);
                assert(!pred(entry));
                assert(picked@ =~= post.filter(pred));
            }
        }
        i += 1;
    }
    proof {
        assert(sessions@.subrange(0, sessions@.len() as int) =~= sessions@);
    }
    picked
}

} // verus!
