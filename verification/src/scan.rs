//! The scan of a tick: the order in which the positions of the grid are visited,
//! and the grid that the visits lead to.

use vstd::prelude::*;
use crate::cells::{in_grid, COLS, ROWS};
use crate::element::{Cell, Element};
use crate::rules::{step, Draw};

verus! {

/// The index `k` of a raster scan over `n` positions, counted from the far end
/// if the scan is flipped.
pub open spec fn flipped(k: int, n: int, flip: bool) -> int {
    if flip {
        n - 1 - k
    } else {
        k
    }
}

/// The position that a scan visits at its `k`-th visit, counted from zero:
/// columns follow one another, and within a column the rows. `flip_x` reverses
/// the order of the columns and `flip_y` that of the rows.
pub open spec fn scan_position(k: int, flip_x: bool, flip_y: bool) -> (int, int) {
    (flipped(k / (ROWS as int), COLS as int, flip_x), flipped(k % (ROWS as int), ROWS as int, flip_y))
}

/// The scratch grid after the first `k` visits of a scan that started from
/// `current`; `draws[k]` is what the pseudorandom source gave at visit `k`.
pub open spec fn scanned(
    current: Seq<Cell>,
    flip_x: bool,
    flip_y: bool,
    draws: Seq<Draw>,
    k: nat,
) -> Seq<Cell>
    decreases k,
{
    if k == 0 {
        current
    } else {
        let at = scan_position(k - 1, flip_x, flip_y);
        step(
            scanned(current, flip_x, flip_y, draws, (k - 1) as nat),
            current,
            at.0,
            at.1,
            draws[k - 1],
        )
    }
}

/// `after` is the grid one tick after `before`, for a scan flipped as `flip_x`
/// and `flip_y` say and the pseudorandom draws `draws`, one for each visit.
pub open spec fn ticked(
    before: Seq<Cell>,
    after: Seq<Cell>,
    flip_x: bool,
    flip_y: bool,
    draws: Seq<Draw>,
) -> bool {
    &&& draws.len() == COLS * ROWS
    &&& forall|k: int| 0 <= k < draws.len() ==> (#[trigger] draws[k]).within_spread()
    &&& after == scanned(before, flip_x, flip_y, draws, (COLS * ROWS) as nat)
}

/// No material in the grid moves: every cell is `Air` or `Solid`.
pub open spec fn still(cells: Seq<Cell>) -> bool {
    forall|p: int|
        0 <= p < cells.len() ==> (#[trigger] cells[p]).element == Element::Air || cells[p].element
            == Element::Solid
}

/// The first `k` visits of a scan depend on the first `k` draws only.
pub proof fn lemma_scanned_prefix(
    current: Seq<Cell>,
    flip_x: bool,
    flip_y: bool,
    a: Seq<Draw>,
    b: Seq<Draw>,
    k: nat,
)
    requires
        k <= a.len(),
        k <= b.len(),
        forall|n: int| 0 <= n < k ==> a[n] == b[n],
    ensures
        scanned(current, flip_x, flip_y, a, k) == scanned(current, flip_x, flip_y, b, k),
    decreases k,
{
    if k > 0 {
        lemma_scanned_prefix(current, flip_x, flip_y, a, b, (k - 1) as nat);
    }
}

/// A scan visits every position of the grid, and none twice.
pub proof fn lemma_scan_visits_each_once(flip_x: bool, flip_y: bool)
    ensures
        forall|k: int|
            0 <= k < COLS * ROWS ==> in_grid(
                (#[trigger] scan_position(k, flip_x, flip_y)).0,
                scan_position(k, flip_x, flip_y).1,
            ),
        forall|k: int, n: int|
            0 <= k < COLS * ROWS && 0 <= n < COLS * ROWS && #[trigger] scan_position(
                k,
                flip_x,
                flip_y,
            ) == #[trigger] scan_position(n, flip_x, flip_y) ==> k == n,
        forall|i: int, j: int|
            in_grid(i, j) ==> exists|k: int|
                0 <= k < COLS * ROWS && #[trigger] scan_position(k, flip_x, flip_y) == (i, j),
{
    assert forall|i: int, j: int| in_grid(i, j) implies exists|k: int|
        0 <= k < COLS * ROWS && #[trigger] scan_position(k, flip_x, flip_y) == (i, j) by {
        let a = flipped(i, COLS as int, flip_x);
        let b = flipped(j, ROWS as int, flip_y);
        let k = a * ROWS + b;
        assert(k / (ROWS as int) == a && k % (ROWS as int) == b);
        assert(scan_position(k, flip_x, flip_y) == (i, j));
    }
}

/// The number of the visit at which a scan comes to `(i, j)`.
pub open spec fn scan_index(i: int, j: int, flip_x: bool, flip_y: bool) -> int {
    flipped(i, COLS as int, flip_x) * ROWS + flipped(j, ROWS as int, flip_y)
}

} // verus!
