//! The decisions of the walk over the directories below the base
//! directory.

use vstd::prelude::*;

verus! {

/// The most threads the walk uses.
pub const MAX_WALK_THREADS: usize = 64;

/// What the walker does next.
#[derive(Debug, Clone, Copy, PartialEq, Eq, Structural)]
pub enum WalkState {
    /// Go on, into the children of this directory too.
    Continue,
    /// Go on, but not into the children of this directory.
    Skip,
    /// Stop the whole walk.
    Quit,
}

/// The number of threads of the walk: the available parallelism, or one
/// where that is unknown, and never more than `MAX_WALK_THREADS`.
pub fn walk_threads(available: Option<usize>) -> (r: usize)
    requires
        available matches Some(n) ==> n >= 1,
    ensures
        1 <= r <= MAX_WALK_THREADS,
        r == match available {
            Some(n) => if n < MAX_WALK_THREADS {
                n
            } else {
                MAX_WALK_THREADS
            },
            None => 1,
        },
{
    match available {
        Some(n) => if n < MAX_WALK_THREADS {
            n
        } else {
            MAX_WALK_THREADS
        },
        None => 1,
    }
}

/// Whether the directory at `depth` below the base directory is checked:
/// the base directory itself never is.
pub fn is_candidate(depth: usize) -> (r: bool)
    ensures
        r == (depth > 0),
{
    depth > 0
}

/// What the walker does after checking a directory: whether it is a
/// project, and, where it is, whether it could be handed on (the receiving
/// side may have stopped listening).
pub fn after_check(is_project: bool, delivered: bool, recursive: bool) -> (r: WalkState)
    ensures
        r == if !is_project {
            WalkState::Continue
        } else if !delivered {
            WalkState::Quit
        } else if recursive {
            WalkState::Continue
        } else {
            WalkState::Skip
        },
{
    if !is_project {
        WalkState::Continue
    } else if !delivered {
        WalkState::Quit
    } else if recursive {
        WalkState::Continue
    } else {
        WalkState::Skip
    }
}

} // verus!
