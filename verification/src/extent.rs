//! The extent of the drawn pixels of a bitmap, grown one pixel at a time.
//!
//! A bitmap is walked as a grid of events `(r, c)`: row `r` of the buffer and
//! column `c` within it. An event may be drawn or not; a drawn event counts
//! at column `c` and at the pointer row `rowof(r)` (several buffer rows can
//! describe the same pointer row, as the AND and XOR halves of a monochrome
//! mask do). The extent of the walk starts at `init` and widens to hold every
//! drawn event.
use vstd::prelude::*;

verus! {

/// The smallest and largest column and pointer row seen so far.
#[derive(Copy, Clone, Debug, PartialEq, Eq, Structural)]
pub struct Extent {
    pub left: usize,
    pub right: usize,
    pub top: usize,
    pub bottom: usize,
}

/// Event `(r, c)` comes before position `(i, j)` of a row-by-row walk over
/// `cols` columns.
pub open spec fn in_prefix(r: int, c: int, i: int, j: int, cols: int) -> bool {
    &&& 0 <= r
    &&& 0 <= c < cols
    &&& (r < i || (r == i && c < j))
}

/// `e` is `init` widened to hold every drawn event before `(i, j)`, and each
/// side that moved from `init` rests on a drawn event.
pub open spec fn covers(
    drawn: spec_fn(int, int) -> bool,
    rowof: spec_fn(int) -> int,
    i: int,
    j: int,
    cols: int,
    init: Extent,
    e: Extent,
) -> bool {
    &&& e.left <= init.left
    &&& e.right >= init.right
    &&& e.top <= init.top
    &&& e.bottom >= init.bottom
    &&& forall|r: int, c: int|
        #![trigger drawn(r, c)]
        in_prefix(r, c, i, j, cols) && drawn(r, c) ==> e.left <= c <= e.right && e.top <= rowof(r)
            <= e.bottom
    &&& (e.left == init.left || exists|r: int, c: int|
        #![trigger drawn(r, c)]
        in_prefix(r, c, i, j, cols) && drawn(r, c) && c == e.left)
    &&& (e.right == init.right || exists|r: int, c: int|
        #![trigger drawn(r, c)]
        in_prefix(r, c, i, j, cols) && drawn(r, c) && c == e.right)
    &&& (e.top == init.top || exists|r: int, c: int|
        #![trigger drawn(r, c)]
        in_prefix(r, c, i, j, cols) && drawn(r, c) && rowof(r) == e.top)
    &&& (e.bottom == init.bottom || exists|r: int, c: int|
        #![trigger drawn(r, c)]
        in_prefix(r, c, i, j, cols) && drawn(r, c) && rowof(r) == e.bottom)
}

/// Some event in the first `rows` rows is drawn.
pub open spec fn any_drawn(drawn: spec_fn(int, int) -> bool, rows: int, cols: int) -> bool {
    exists|r: int, c: int| #![trigger drawn(r, c)] 0 <= r < rows && 0 <= c < cols && drawn(r, c)
}

/// The extent that holds nothing yet: every later drawn event moves all four sides.
pub open spec fn empty_extent() -> Extent {
    Extent { left: usize::MAX, right: 0, top: usize::MAX, bottom: 0 }
}

/// The same row of the pointer as of the buffer.
pub open spec fn same_row() -> spec_fn(int) -> int {
    |r: int| r
}

impl Extent {
    /// Widens the extent to hold column `col` of pointer row `row`.
    pub fn widen(&mut self, col: usize, row: usize)
        ensures
            final(self).left == if col < old(self).left { col } else { old(self).left },
            final(self).right == if col > old(self).right { col } else { old(self).right },
            final(self).top == if row < old(self).top { row } else { old(self).top },
            final(self).bottom == if row > old(self).bottom { row } else { old(self).bottom },
    {
        if col < self.left {
            self.left = col;
        }
        if col > self.right {
            self.right = col;
        }
        if row < self.top {
            self.top = row;
        }
        if row > self.bottom {
            self.bottom = row;
        }
    }
}

/// A walk that has seen nothing is its starting extent.
pub proof fn lemma_covers_start(
    drawn: spec_fn(int, int) -> bool,
    rowof: spec_fn(int) -> int,
    cols: int,
    init: Extent,
)
    ensures
        covers(drawn, rowof, 0, 0, cols, init, init),
{
}

/// One more event of the walk: the extent widens exactly when it is drawn.
pub proof fn lemma_covers_step(
    drawn: spec_fn(int, int) -> bool,
    rowof: spec_fn(int) -> int,
    i: int,
    j: int,
    cols: int,
    init: Extent,
    e: Extent,
    e2: Extent,
)
    requires
        covers(drawn, rowof, i, j, cols, init, e),
        0 <= i,
        0 <= j < cols,
        drawn(i, j) ==> {
            &&& e2.left == if j < e.left { j } else { e.left as int }
            &&& e2.right == if j > e.right { j } else { e.right as int }
            &&& e2.top == if rowof(i) < e.top { rowof(i) } else { e.top as int }
            &&& e2.bottom == if rowof(i) > e.bottom { rowof(i) } else { e.bottom as int }
        },
        !drawn(i, j) ==> e2 == e,
    ensures
        covers(drawn, rowof, i, j + 1, cols, init, e2),
{
    assert forall|r: int, c: int| #[trigger] in_prefix(r, c, i, j + 1, cols) implies in_prefix(
        r,
        c,
        i,
        j,
        cols,
    ) || (r == i && c == j) by {}
    if drawn(i, j) {
        if e2.left != init.left {
            if e2.left == j {
                assert(in_prefix(i, j, i, j + 1, cols) && drawn(i, j));
            } else {
                let (r, c) = choose|r: int, c: int|
                    #![trigger drawn(r, c)]
                    in_prefix(r, c, i, j, cols) && drawn(r, c) && c == e.left;
                assert(in_prefix(r, c, i, j + 1, cols));
            }
        }
        if e2.right != init.right {
            if e2.right == j {
                assert(in_prefix(i, j, i, j + 1, cols) && drawn(i, j));
            } else {
                let (r, c) = choose|r: int, c: int|
                    #![trigger drawn(r, c)]
                    in_prefix(r, c, i, j, cols) && drawn(r, c) && c == e.right;
                assert(in_prefix(r, c, i, j + 1, cols));
            }
        }
        if e2.top != init.top {
            if e2.top == rowof(i) {
                assert(in_prefix(i, j, i, j + 1, cols) && drawn(i, j));
            } else {
                let (r, c) = choose|r: int, c: int|
                    #![trigger drawn(r, c)]
                    in_prefix(r, c, i, j, cols) && drawn(r, c) && rowof(r) == e.top;
                assert(in_prefix(r, c, i, j + 1, cols));
            }
        }
        if e2.bottom != init.bottom {
            if e2.bottom == rowof(i) {
                assert(in_prefix(i, j, i, j + 1, cols) && drawn(i, j));
            } else {
                let (r, c) = choose|r: int, c: int|
                    #![trigger drawn(r, c)]
                    in_prefix(r, c, i, j, cols) && drawn(r, c) && rowof(r) == e.bottom;
                assert(in_prefix(r, c, i, j + 1, cols));
            }
        }
    } else {
        if e.left != init.left {
            let (r, c) = choose|r: int, c: int|
                #![trigger drawn(r, c)]
                in_prefix(r, c, i, j, cols) && drawn(r, c) && c == e.left;
            assert(in_prefix(r, c, i, j + 1, cols));
        }
        if e.right != init.right {
            let (r, c) = choose|r: int, c: int|
                #![trigger drawn(r, c)]
                in_prefix(r, c, i, j, cols) && drawn(r, c) && c == e.right;
            assert(in_prefix(r, c, i, j + 1, cols));
        }
        if e.top != init.top {
            let (r, c) = choose|r: int, c: int|
                #![trigger drawn(r, c)]
                in_prefix(r, c, i, j, cols) && drawn(r, c) && rowof(r) == e.top;
            assert(in_prefix(r, c, i, j + 1, cols));
        }
        if e.bottom != init.bottom {
            let (r, c) = choose|r: int, c: int|
                #![trigger drawn(r, c)]
                in_prefix(r, c, i, j, cols) && drawn(r, c) && rowof(r) == e.bottom;
            assert(in_prefix(r, c, i, j + 1, cols));
        }
    }
}

/// The end of one row is the start of the next.
pub proof fn lemma_covers_next_row(
    drawn: spec_fn(int, int) -> bool,
    rowof: spec_fn(int) -> int,
    i: int,
    cols: int,
    init: Extent,
    e: Extent,
)
    requires
        covers(drawn, rowof, i, cols, cols, init, e),
    ensures
        covers(drawn, rowof, i + 1, 0, cols, init, e),
{
    assert forall|r: int, c: int| in_prefix(r, c, i + 1, 0, cols) == in_prefix(r, c, i, cols, cols) by {}
}

/// Events that the walk passes over without any of them drawn leave the
/// extent as it is.
pub proof fn lemma_covers_skip(
    drawn: spec_fn(int, int) -> bool,
    rowof: spec_fn(int) -> int,
    i: int,
    j: int,
    i2: int,
    j2: int,
    cols: int,
    init: Extent,
    e: Extent,
)
    requires
        covers(drawn, rowof, i, j, cols, init, e),
        forall|r: int, c: int| in_prefix(r, c, i, j, cols) ==> in_prefix(r, c, i2, j2, cols),
        forall|r: int, c: int|
            #![trigger drawn(r, c)]
            in_prefix(r, c, i2, j2, cols) && !in_prefix(r, c, i, j, cols) ==> !drawn(r, c),
    ensures
        covers(drawn, rowof, i2, j2, cols, init, e),
{
    if e.left != init.left {
        let (r, c) = choose|r: int, c: int|
            #![trigger drawn(r, c)]
            in_prefix(r, c, i, j, cols) && drawn(r, c) && c == e.left;
        assert(in_prefix(r, c, i2, j2, cols));
    }
    if e.right != init.right {
        let (r, c) = choose|r: int, c: int|
            #![trigger drawn(r, c)]
            in_prefix(r, c, i, j, cols) && drawn(r, c) && c == e.right;
        assert(in_prefix(r, c, i2, j2, cols));
    }
    if e.top != init.top {
        let (r, c) = choose|r: int, c: int|
            #![trigger drawn(r, c)]
            in_prefix(r, c, i, j, cols) && drawn(r, c) && rowof(r) == e.top;
        assert(in_prefix(r, c, i2, j2, cols));
    }
    if e.bottom != init.bottom {
        let (r, c) = choose|r: int, c: int|
            #![trigger drawn(r, c)]
            in_prefix(r, c, i, j, cols) && drawn(r, c) && rowof(r) == e.bottom;
        assert(in_prefix(r, c, i2, j2, cols));
    }
}

/// A side of a full walk that moved from `init` lies on a drawn event:
/// columns below `cols`, pointer rows among those of the first `rows` rows.
pub proof fn lemma_covers_sides(
    drawn: spec_fn(int, int) -> bool,
    rowof: spec_fn(int) -> int,
    rows: int,
    cols: int,
    init: Extent,
    e: Extent,
)
    requires
        covers(drawn, rowof, rows, 0, cols, init, e),
    ensures
        e.left != init.left ==> e.left < cols,
        e.right != init.right ==> e.right < cols,
        e.top != init.top ==> exists|r: int| 0 <= r < rows && #[trigger] rowof(r) == e.top,
        e.bottom != init.bottom ==> exists|r: int| 0 <= r < rows && #[trigger] rowof(r) == e.bottom,
{
    if e.top != init.top {
        let (r, c) = choose|r: int, c: int|
            #![trigger drawn(r, c)]
            in_prefix(r, c, rows, 0, cols) && drawn(r, c) && rowof(r) == e.top;
        assert(0 <= r < rows && rowof(r) == e.top);
    }
    if e.bottom != init.bottom {
        let (r, c) = choose|r: int, c: int|
            #![trigger drawn(r, c)]
            in_prefix(r, c, rows, 0, cols) && drawn(r, c) && rowof(r) == e.bottom;
        assert(0 <= r < rows && rowof(r) == e.bottom);
    }
}

/// The walk determines its extent: two extents that both cover the same
/// events from the same start are equal.
pub proof fn lemma_covers_unique(
    drawn: spec_fn(int, int) -> bool,
    rowof: spec_fn(int) -> int,
    i: int,
    j: int,
    cols: int,
    init: Extent,
    e1: Extent,
    e2: Extent,
)
    requires
        covers(drawn, rowof, i, j, cols, init, e1),
        covers(drawn, rowof, i, j, cols, init, e2),
    ensures
        e1 == e2,
{
}

/// Started from the empty extent, a full walk over `rows` rows is a proper
/// box exactly when some event is drawn.
pub proof fn lemma_empty_start_proper(
    drawn: spec_fn(int, int) -> bool,
    rowof: spec_fn(int) -> int,
    rows: int,
    cols: int,
    e: Extent,
)
    requires
        covers(drawn, rowof, rows, 0, cols, empty_extent(), e),
    ensures
        (e.left <= e.right && e.top <= e.bottom) <==> any_drawn(drawn, rows, cols),
{
    if any_drawn(drawn, rows, cols) {
        let (r, c) = choose|r: int, c: int|
            #![trigger drawn(r, c)]
            0 <= r < rows && 0 <= c < cols && drawn(r, c);
        assert(in_prefix(r, c, rows, 0, cols));
    } else {
        assert forall|r: int, c: int| in_prefix(r, c, rows, 0, cols) implies !#[trigger] drawn(r, c) by {
            if drawn(r, c) {
                assert(0 <= r < rows && 0 <= c < cols && drawn(r, c));
            }
        }
    }
}

} // verus!
