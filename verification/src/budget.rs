//! The CPU thread budget shared by **every** model of the process.
//!
//! If each scheduler had its own limit, two models (one for partials, one for
//! finals) would run at once and add their threads up; ggml spin-waits at its
//! barriers, so oversubscription does not slow down gracefully, it collapses.
//! Each inference asks for exactly its thread count in permits, which keeps
//! `threads running <= total` for the whole process. The semaphore itself
//! lives with the async runtime; these are the rules it is sized by.
use vstd::prelude::*;

verus! {

/// Size of a budget asked for `requested` threads: at least one.
pub fn budget_total(requested: usize) -> (total: usize)
    ensures
        total == (if requested >= 1 {
            requested
        } else {
            1
        }),
{
    if requested >= 1 {
        requested
    } else {
        1
    }
}

/// The automatic budget: leave two cores to tokio, VAD, audio decoding and
/// the OS (a budget equal to the core count is the slowest setting
/// measured); 4 cores are assumed when the count is unknown.
pub fn auto_budget(cores: Option<usize>) -> (total: usize)
    ensures
        ({
            let c: int = match cores {
                Some(c) => c as int,
                None => 4,
            };
            total == (if c - 2 >= 1 {
                c - 2
            } else {
                1
            })
        }),
{
    let c = match cores {
        Some(c) => c,
        None => 4,
    };
    budget_total(c.saturating_sub(2))
}

/// Permits one inference takes: its thread count, at least one and at most
/// the whole budget.
pub fn permits_for(threads: usize, total: usize) -> (permits: u32)
    requires
        total >= 1,
    ensures
        permits == (if threads < 1 {
            1
        } else if threads > total {
            total as int
        } else {
            threads as int
        }) as u32,
{
    let want = if threads < 1 {
        1
    } else if threads > total {
        total
    } else {
        threads
    };
    #[verifier::truncate]
    (want as u32)
}

/// Threads one inference of a model uses: its configured count, at least one.
pub fn model_threads(n_threads: i32) -> (threads: usize)
    ensures
        threads == (if n_threads >= 1 {
            n_threads as int
        } else {
            1
        }),
{
    if n_threads >= 1 {
        n_threads as usize
    } else {
        1
    }
}

/// How many inferences of a model using `threads` threads fit in a budget
/// of `total` threads: at least one.
pub fn max_concurrent(total: usize, threads: usize) -> (n: usize)
    requires
        threads >= 1,
    ensures
        n == (if total / threads >= 1 {
            total / threads
        } else {
            1
        }),
{
    let n = total / threads;
    if n >= 1 {
        n
    } else {
        1
    }
}

/// The budget of a scheduler that stands alone: room for `max_concurrent`
/// inferences (at least one) of `threads` threads each.
pub fn standalone_budget(max_concurrent: usize, threads: usize) -> (total: usize)
    requires
        threads >= 1,
        (if max_concurrent >= 1 {
            max_concurrent as int
        } else {
            1
        }) * threads <= usize::MAX,
    ensures
        total == (if max_concurrent >= 1 {
            max_concurrent as int
        } else {
            1
        }) * threads,
{
    let m = if max_concurrent >= 1 {
        max_concurrent
    } else {
        1
    };
    m * threads
}

/// Law: an inference never takes more permits than the budget holds, nor
/// fewer than one.
pub proof fn lemma_permits_within_budget(threads: usize, total: usize)
    requires
        1 <= total <= u32::MAX,
    ensures
        ({
            let p: int = if threads < 1 {
                1
            } else if threads > total {
                total as int
            } else {
                threads as int
            };
            1 <= p <= total && (p as u32) as int == p
        }),
{
}

} // verus!
