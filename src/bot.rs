use vstd::prelude::*;

verus! {

/// How many failed inserts of a new snippet id are tolerated before giving up.
pub const MAX_INSERT_ATTEMPTS: u32 = 100;

/// How long, in seconds, an ephemeral snippet is kept before it expires.
pub const EPHEMERAL_RETENTION_SECS: i64 = 1800;

/// What to do after trying to store a snippet under a fresh id.
#[derive(Clone, Copy, Debug, PartialEq, Eq, Structural)]
pub enum InsertStep {
    /// The snippet is stored.
    Done,
    /// Draw another id; the payload is the failures counted so far.
    Retry(u32),
    /// Too many failures: report the last one.
    GiveUp,
}

/// Decides the next step after an insert, given the failures counted before
/// it and whether it failed.
pub fn after_insert(failures: u32, failed: bool) -> (r: InsertStep)
    requires
        failures <= MAX_INSERT_ATTEMPTS,
    ensures
        !failed ==> r == InsertStep::Done,
        failed && failures + 1 > MAX_INSERT_ATTEMPTS ==> r == InsertStep::GiveUp,
        failed && failures + 1 <= MAX_INSERT_ATTEMPTS ==> r == InsertStep::Retry((failures + 1) as u32),
{
    if !failed {
        InsertStep::Done
    } else if failures + 1 > MAX_INSERT_ATTEMPTS {
        InsertStep::GiveUp
    } else {
        InsertStep::Retry(failures + 1)
    }
}

/// Whether size `a` is smaller than `b`, comparing width first, then height.
pub open spec fn size_lt(a: (i64, i64), b: (i64, i64)) -> bool {
    a.0 < b.0 || (a.0 == b.0 && a.1 < b.1)
}

/// The index of the largest of the photo sizes (width, height), compared
/// width first; the first such one where several are equal.
pub fn largest_photo(sizes: &Vec<(i64, i64)>) -> (r: usize)
    requires
        sizes@.len() > 0,
    ensures
        r < sizes@.len(),
        forall|j: int| 0 <= j < sizes@.len() ==> !size_lt(sizes@[r as int], #[trigger] sizes@[j]),
        forall|j: int| 0 <= j < r ==> size_lt(#[trigger] sizes@[j], sizes@[r as int]),
{
    let mut best: usize = 0;
    let mut i: usize = 1;
    while i < sizes.len()
        invariant
            1 <= i <= sizes@.len(),
            best < i,
            forall|j: int| 0 <= j < i ==> !size_lt(sizes@[best as int], #[trigger] sizes@[j]),
            forall|j: int| 0 <= j < best ==> size_lt(#[trigger] sizes@[j], sizes@[best as int]),
        decreases sizes@.len() - i,
    {
        let (bw, bh) = sizes[best];
        let (w, h) = sizes[i];
        if bw < w || (bw == w && bh < h) {
            best = i;
        }
        i = i + 1;
    }
    best
}

/// The send time, in Unix seconds, before which ephemeral snippets have
/// expired at time `now`.
pub fn ephemeral_cutoff(now: i64) -> (r: i64)
    ensures
        r == if now - EPHEMERAL_RETENTION_SECS < i64::MIN { i64::MIN as int } else { now - EPHEMERAL_RETENTION_SECS },
{
    if now < i64::MIN + EPHEMERAL_RETENTION_SECS {
        i64::MIN
    } else {
        now - EPHEMERAL_RETENTION_SECS
    }
}

} // verus!
