//! Batch helpers around a fetch: sampling a window of lines and a few
//! exact figures about duplication in a batch.

use vstd::prelude::*;
use crate::line::{contains_string, Line};

verus! {

/// Where a batch of lines is loaded from.
pub enum DataSource {
    API,
    Cache,
}

/// Relies on rand's `random_range` over `0..n`: the result lies in the
/// range; nothing else is assumed of it.
#[verifier::external_body]
fn random_below(n: usize) -> (r: usize)
    requires
        n >= 1,
    ensures
        r < n,
{
    rand::random_range(0..n)
}

/// `r` is a clone of the window of `xs` starting at `seed`.
pub open spec fn is_window<T: Clone>(xs: Seq<T>, r: Seq<T>, seed: int) -> bool {
    &&& 0 <= seed
    &&& seed + r.len() <= xs.len()
    &&& forall|i: int| 0 <= i < r.len() ==> cloned::<T>(xs[seed + i], #[trigger] r[i])
}

/// Picks a contiguous window of `size` elements at a position drawn at
/// random; a request of at least the whole collection returns it whole.
pub fn sample<T: Clone>(xs: Vec<T>, size: usize) -> (r: Vec<T>)
    ensures
        r@.len() == if size >= xs@.len() {
            xs@.len() as int
        } else {
            size as int
        },
        exists|seed: int| is_window(xs@, r@, seed),
{
    let len = xs.len();
    if size >= len {
        proof {
            assert(is_window(xs@, xs@, 0));
        }
        return xs;
    }
    let seed = random_below(len - size);
    let mut r: Vec<T> = Vec::new();
    let mut i: usize = seed;
    while i < seed + size
        invariant
            seed + size <= len == xs@.len(),
            seed <= i <= seed + size,
            r@.len() == i - seed,
            forall|k: int| 0 <= k < r@.len() ==> cloned::<T>(xs@[seed + k], #[trigger] r@[k]),
        decreases seed + size - i,
    {
        r.push(xs[i].clone());
        i = i + 1;
    }
    proof {
        assert(is_window(xs@, r@, seed as int));
    }
    r
}

/// Whether each line's id already occurred earlier in the batch.
pub fn duplicate_line_flags(lines: &Vec<Line>) -> (r: Vec<bool>)
    ensures
        r@.len() == lines@.len(),
        forall|i: int|
            0 <= i < lines@.len() ==> r@[i] == exists|k: int|
                0 <= k < i && (#[trigger] lines@[k]).id@ == lines@[i].id@,
{
    let mut seen: Vec<String> = Vec::new();
    let mut r: Vec<bool> = Vec::new();
    let mut i: usize = 0;
    while i < lines.len()
        invariant
            i <= lines@.len(),
            r@.len() == i,
            seen@.map_values(|t: String| t@) == lines@.take(i as int).map_values(
                |l: Line| l.id@,
            ),
            forall|t: int|
                0 <= t < i ==> r@[t] == exists|k: int|
                    0 <= k < t && (#[trigger] lines@[k]).id@ == lines@[t].id@,
        decreases lines@.len() - i,
    {
        let dup = contains_string(&seen, lines[i].id.as_str());
        proof {
            let ids = seen@.map_values(|t: String| t@);
            if dup {
                let k = choose|k: int|
                    0 <= k < ids.len() && #[trigger] ids[k] == lines@[i as int].id@;
                assert(lines@.take(i as int)[k] == lines@[k]);
                assert(lines@[k].id@ == lines@[i as int].id@);
            } else {
                assert forall|k: int|
                    0 <= k < i implies (#[trigger] lines@[k]).id@ != lines@[i as int].id@ by {
                    assert(ids[k] == lines@.take(i as int).map_values(|l: Line| l.id@)[k]);
                    assert(ids[k] == lines@[k].id@);
                }
            }
        }
        r.push(dup);
        let ghost seen0 = seen@;
        seen.push(lines[i].id.clone());
        proof {
            let newids = seen@.map_values(|t2: String| t2@);
            let target = lines@.take(i as int + 1).map_values(|l: Line| l.id@);
            assert forall|t: int| 0 <= t < i + 1 implies newids[t] == #[trigger] target[t] by {
                if t < i {
                    assert(seen@[t] == seen0[t]);
                    assert(newids[t] == seen0[t]@);
                    assert(seen0.map_values(|t2: String| t2@)[t] == lines@.take(
                        i as int,
                    ).map_values(|l: Line| l.id@)[t]);
                    assert(lines@.take(i as int)[t] == lines@.take(i as int + 1)[t]);
                }
            }
            assert(seen@.map_values(|t: String| t@) =~= lines@.take(i as int + 1).map_values(
                |l: Line| l.id@,
            ));
        }
        i = i + 1;
    }
    proof {
        assert(lines@.take(lines@.len() as int) =~= lines@);
    }
    r
}

/// The total number of route sections of the lines from index `i`.
pub open spec fn total_sections(lines: Seq<Line>, i: int) -> int
    decreases lines.len() - i,
{
    if i < 0 || i >= lines.len() {
        0
    } else {
        lines[i].route_sections@.len() + total_sections(lines, i + 1)
    }
}

/// The section total is never negative.
proof fn lemma_total_sections_nonneg(lines: Seq<Line>, i: int)
    ensures
        total_sections(lines, i) >= 0,
    decreases lines.len() - i,
{
    if 0 <= i < lines.len() {
        lemma_total_sections_nonneg(lines, i + 1);
    }
}

/// Counts the route sections across a batch; fails exactly when the
/// total does not fit in a machine word.
#[verifier::loop_isolation(false)]
pub fn count_route_sections(lines: &Vec<Line>) -> (r: Option<usize>)
    ensures
        (r is Some) == (total_sections(lines@, 0) <= usize::MAX),
        r matches Some(n) ==> n == total_sections(lines@, 0),
{
    let mut count: usize = 0;
    let mut i: usize = 0;
    while i < lines.len()
        invariant
            i <= lines@.len(),
            count + total_sections(lines@, i as int) == total_sections(lines@, 0),
        decreases lines@.len() - i,
    {
        let n = lines[i].route_sections.len();
        if count > usize::MAX - n {
            proof {
                lemma_total_sections_nonneg(lines@, i as int + 1);
            }
            return None;
        }
        count = count + n;
        i = i + 1;
    }
    proof {
        lemma_total_sections_nonneg(lines@, 0);
    }
    Some(count)
}

} // verus!
