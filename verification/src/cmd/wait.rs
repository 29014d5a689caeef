//! Waiting for a server to come up.

use vstd::prelude::*;

verus! {

/// What to do next while waiting.
#[derive(Debug, Clone, Copy, PartialEq, Eq, Structural)]
pub enum Poll {
    /// The server is up.
    Ready,
    /// The time is over.
    TimedOut,
    /// Ask again after this many milliseconds.
    Sleep(u64),
}

/// Waits until a deadline: `expired` says whether it has passed, `alive`
/// whether the server answered, `pause` is the time between two questions.  A
/// server is not asked again behind the deadline.
pub fn until_deadline(expired: bool, alive: bool, pause: u64) -> (r: Poll)
    ensures
        r == (if expired {
            Poll::TimedOut
        } else if alive {
            Poll::Ready
        } else {
            Poll::Sleep(pause)
        }),
{
    if expired {
        Poll::TimedOut
    } else if alive {
        Poll::Ready
    } else {
        Poll::Sleep(pause)
    }
}

/// Waits for a number of questions: `asked` were put behind the first, `most`
/// is the number after which the wait ends.
pub fn until_asked(asked: u32, most: u32, alive: bool, pause: u64) -> (r: Poll)
    ensures
        r == (if alive {
            Poll::Ready
        } else if asked >= most {
            Poll::TimedOut
        } else {
            Poll::Sleep(pause)
        }),
{
    if alive {
        Poll::Ready
    } else if asked >= most {
        Poll::TimedOut
    } else {
        Poll::Sleep(pause)
    }
}

} // verus!
