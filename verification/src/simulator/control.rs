//! The session that control records come over: it is opened again whenever it
//! ends.

use vstd::prelude::*;

verus! {

/// How long to wait before the session is opened again, in seconds.
pub const RETRY_SECS: u64 = 5;

/// What is to be done next with the control session.
pub enum Step {
    Open,
    Subscribe,
    /// The stream of records is to be asked for.
    Records,
    /// The next record is to be awaited and acted on.
    Listen,
    /// The session is to be closed.
    Close,
    /// So many seconds are to be waited.
    Wait(u64),
}

/// What is to be done next, after a step that went well or did not. For
/// `Listen` that is whether a record came, or the stream ended.
pub open spec fn next_step(step: Step, well: bool) -> Step {
    match step {
        Step::Open => if well {
            Step::Subscribe
        } else {
            Step::Wait(RETRY_SECS)
        },
        Step::Subscribe => if well {
            Step::Records
        } else {
            Step::Close
        },
        Step::Records => if well {
            Step::Listen
        } else {
            Step::Close
        },
        Step::Listen => if well {
            Step::Listen
        } else {
            Step::Close
        },
        Step::Close => Step::Wait(RETRY_SECS),
        Step::Wait(_) => Step::Open,
    }
}

/// What is to be done next, after a step that went well or did not.
pub fn advance(step: Step, well: bool) -> (r: Step)
    ensures
        r == next_step(step, well),
{
    match step {
        Step::Open => {
            if well {
                Step::Subscribe
            } else {
                Step::Wait(RETRY_SECS)
            }
        },
        Step::Subscribe => {
            if well {
                Step::Records
            } else {
                Step::Close
            }
        },
        Step::Records => {
            if well {
                Step::Listen
            } else {
                Step::Close
            }
        },
        Step::Listen => {
            if well {
                Step::Listen
            } else {
                Step::Close
            }
        },
        Step::Close => Step::Wait(RETRY_SECS),
        Step::Wait(_) => Step::Open,
    }
}

/// Whatever fails, the session is opened again after five seconds: a failure
/// is followed by a wait, with a close before it where there is something to
/// close, and a wait by an attempt to open.
pub proof fn the_session_is_always_opened_again(step: Step, well: bool)
    ensures
        !well && step is Open ==> next_step(step, well) == Step::Wait(5),
        !well && (step is Subscribe || step is Records || step is Listen) ==> next_step(
            step,
            well,
        ) is Close,
        step is Close ==> next_step(step, well) == Step::Wait(5),
        step is Wait ==> next_step(step, well) is Open,
{
}

} // verus!
