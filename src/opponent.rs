use vstd::prelude::*;
use rand::Rng;
use crate::board::{in_bounds, ROWS, COLS};
use crate::ship::pos_of;

verus! {

/// Relies on rand's `thread_rng().gen_range(0..n)`: a value drawn from `0..n`,
/// which it panics on only when the range is empty.
#[verifier::external_body]
fn random_below(n: usize) -> (r: usize)
    requires
        n > 0,
    ensures
        r < n,
{
    rand::thread_rng().gen_range(0..n)
}

/// The scripted opponent's move: a cell drawn uniformly from the whole grid,
/// with no memory of earlier shots, so it may repeat one.
pub fn opponent_target() -> (r: [usize; 2])
    ensures
        in_bounds(pos_of(r)),
{
    let row = random_below(ROWS);
    let col = random_below(COLS);
    [row, col]
}

} // verus!
