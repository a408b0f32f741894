//! Merging of wall cells into rectangle colliders.
//!
//! One collider per wall tile is wasteful, so a level's occupied cells are
//! consolidated: contiguous cells of one row become a plate, and plates with
//! identical horizontal extent in consecutive rows fuse into one rectangle.
//! Plates are compared strictly by their (left, right) bounds — a one-cell
//! horizontal shift starts a new rectangle. The result is not always the
//! minimum rectangle count, but it is computed in one pass per phase and its
//! union covers exactly the occupied cells, with no two rectangles
//! overlapping.

use vstd::prelude::*;

use crate::Cell;
use crate::grid::{cell_set, cells_in_grid, cells_contain};

verus! {

/// A maximal horizontal run of occupied cells within one row, `left` and
/// `right` inclusive, in grid units.
#[derive(Clone, Copy, PartialEq, Eq, Structural, Debug)]
pub struct Plate {
    pub left: i32,
    pub right: i32,
}

/// A merged axis-aligned region, all bounds inclusive, in grid units.
#[derive(Clone, Copy, PartialEq, Eq, Structural, Debug)]
pub struct Rect {
    pub left: i32,
    pub right: i32,
    pub bottom: i32,
    pub top: i32,
}

/// Mathematical counterpart of [`Plate`].
pub ghost struct AbsPlate {
    pub l: int,
    pub r: int,
}

/// Mathematical counterpart of [`Rect`].
pub ghost struct AbsRect {
    pub l: int,
    pub r: int,
    pub b: int,
    pub t: int,
}

impl View for Plate {
    type V = AbsPlate;

    open spec fn view(&self) -> AbsPlate {
        AbsPlate { l: self.left as int, r: self.right as int }
    }
}

impl View for Rect {
    type V = AbsRect;

    open spec fn view(&self) -> AbsRect {
        AbsRect {
            l: self.left as int,
            r: self.right as int,
            b: self.bottom as int,
            t: self.top as int,
        }
    }
}

/// The plates of a row, as mathematical values.
pub open spec fn plates_abs(s: Seq<Plate>) -> Seq<AbsPlate> {
    Seq::new(s.len(), |i: int| s[i]@)
}

/// The rectangles of a list, as mathematical values.
pub open spec fn rects_abs(s: Seq<Rect>) -> Seq<AbsRect> {
    Seq::new(s.len(), |i: int| s[i]@)
}

/// `[l, r]` is a maximal run of occupied cells in row `y`: occupied
/// throughout, with both neighbours free.
pub open spec fn is_plate(occ: Set<(int, int)>, w: int, y: int, l: int, r: int) -> bool {
    &&& 0 <= l <= r < w
    &&& forall|c: int| l <= c <= r ==> #[trigger] occ.contains((c, y))
    &&& !occ.contains((l - 1, y))
    &&& !occ.contains((r + 1, y))
}

/// Whether the plate value `p` occurs in `plates`.
pub open spec fn plate_in(plates: Seq<AbsPlate>, p: AbsPlate) -> bool {
    exists|i: int| 0 <= i < plates.len() && plates[i] == p
}

/// Whether some plate at index `from` or later has bounds `(l, r)`.
pub open spec fn key_in_plates_from(plates: Seq<AbsPlate>, from: int, l: int, r: int) -> bool {
    exists|j: int| from <= j < plates.len() && (#[trigger] plates[j]).l == l && plates[j].r == r
}

/// Whether an in-progress rectangle with bounds `(l, r)` exists.
pub open spec fn is_key(e: AbsRect, l: int, r: int) -> bool {
    e.l == l && e.r == r
}

/// Index of the first in-progress rectangle at `i` or later whose horizontal
/// bounds are `(l, r)`; -1 when there is none.
pub open spec fn find_key_from(b: Seq<AbsRect>, l: int, r: int, i: int) -> int
    decreases b.len() - i,
{
    if i < 0 || i >= b.len() {
        -1
    } else if is_key(b[i], l, r) {
        i
    } else {
        find_key_from(b, l, r, i + 1)
    }
}

pub open spec fn find_key(b: Seq<AbsRect>, l: int, r: int) -> int {
    find_key_from(b, l, r, 0)
}

/// `find_key_from` returns the first match, or -1 exactly when no index
/// from `i` on matches.
proof fn lemma_find_key_from(b: Seq<AbsRect>, l: int, r: int, i: int)
    requires
        0 <= i <= b.len(),
    ensures
        ({
            let k = find_key_from(b, l, r, i);
            &&& (k == -1 <==> forall|j: int| i <= j < b.len() ==> !is_key(#[trigger] b[j], l, r))
            &&& (k != -1 ==> i <= k < b.len() && is_key(b[k], l, r) && forall|j: int|
                i <= j < k ==> !is_key(#[trigger] b[j], l, r))
        }),
    decreases b.len() - i,
{
    if i < b.len() {
        if !is_key(b[i], l, r) {
            lemma_find_key_from(b, l, r, i + 1);
        }
    }
}

// ---------------------------------------------------------------------------
// Phase one: row compaction.
// ---------------------------------------------------------------------------

/// One scan step per column. `start` is the left bound of the currently open
/// run, if one is open; `acc` holds the plates already emitted. The scan
/// visits columns `x = 0 ..= w`, one column past the right edge, so a run
/// touching the edge is closed.
pub open spec fn scan_row(
    occ: Set<(int, int)>,
    w: int,
    y: int,
    x: int,
    start: Option<int>,
    acc: Seq<AbsPlate>,
) -> Seq<AbsPlate>
    decreases w + 1 - x,
{
    if x > w || x < 0 || w < 0 {
        acc
    } else {
        let o = occ.contains((x, y));
        match start {
            Some(s) => if !o {
                scan_row(occ, w, y, x + 1, None, acc.push(AbsPlate { l: s, r: x - 1 }))
            } else {
                scan_row(occ, w, y, x + 1, start, acc)
            },
            None => if o {
                scan_row(occ, w, y, x + 1, Some(x), acc)
            } else {
                scan_row(occ, w, y, x + 1, None, acc)
            },
        }
    }
}

/// The plates of row `y`, left to right.
pub open spec fn row_plates(occ: Set<(int, int)>, w: int, y: int) -> Seq<AbsPlate> {
    scan_row(occ, w, y, 0, None, Seq::empty())
}

/// The plates of every row `0 .. h`, then one empty sentinel row, so the
/// fusion phase closes rectangles touching the top edge.
pub open spec fn plate_rows(occ: Set<(int, int)>, w: int, h: int) -> Seq<Seq<AbsPlate>> {
    Seq::new((h + 1) as nat, |y: int| if y < h { row_plates(occ, w, y) } else { Seq::empty() })
}

/// All plates emitted by a row scan are maximal occupied runs, they appear
/// sorted with gaps between them, and together they cover exactly the
/// occupied cells of the row.
proof fn lemma_scan_row(
    occ: Set<(int, int)>,
    w: int,
    y: int,
    x: int,
    start: Option<int>,
    acc: Seq<AbsPlate>,
)
    requires
        forall|p: (int, int)| #[trigger] occ.contains(p) ==> 0 <= p.0 < w,
        0 <= x <= w + 1,
        match start {
            Some(s) => {
                &&& 0 <= s < x
                &&& forall|c: int| s <= c < x ==> #[trigger] occ.contains((c, y))
                &&& !occ.contains((s - 1, y))
            },
            None => true,
        },
        forall|k: int| 0 <= k < acc.len() ==> {
            let p = #[trigger] acc[k];
            &&& 0 <= p.l <= p.r < w
            &&& (forall|c: int| p.l <= c <= p.r ==> #[trigger] occ.contains((c, y)))
            &&& !occ.contains((p.l - 1, y))
            &&& !occ.contains((p.r + 1, y))
            &&& p.r <= (match start {
                Some(s) => s - 2,
                None => x - 2,
            })
        },
        forall|k1: int, k2: int| 0 <= k1 < k2 < acc.len()
            ==> (#[trigger] acc[k1]).r + 1 < (#[trigger] acc[k2]).l,
        forall|c: int| 0 <= c < x ==> (#[trigger] occ.contains((c, y)) <==> ((exists|k: int|
            0 <= k < acc.len() && (#[trigger] acc[k]).l <= c <= acc[k].r) || (match start {
            Some(s) => s <= c,
            None => false,
        }))),
    ensures
        ({
            let res = scan_row(occ, w, y, x, start, acc);
            &&& forall|k: int| 0 <= k < res.len() ==> {
                let p = #[trigger] res[k];
                &&& 0 <= p.l <= p.r < w
                &&& (forall|c: int| p.l <= c <= p.r ==> #[trigger] occ.contains((c, y)))
                &&& !occ.contains((p.l - 1, y))
                &&& !occ.contains((p.r + 1, y))
            }
            &&& forall|k1: int, k2: int| 0 <= k1 < k2 < res.len()
                ==> (#[trigger] res[k1]).r + 1 < (#[trigger] res[k2]).l
            &&& forall|c: int| 0 <= c < w ==> (#[trigger] occ.contains((c, y)) <==> exists|k: int|
                0 <= k < res.len() && (#[trigger] res[k]).l <= c <= res[k].r)
        }),
    decreases w + 1 - x,
{
    if x > w {
        // Scan finished: an open run would have cells at column w and beyond,
        // impossible for bounded occupancy, so `start` is None here.
        match start {
            Some(s) => {
                assert(occ.contains((w, y)));  // from s <= w < x
                assert(false);
            },
            None => {},
        }
    } else {
        let o = occ.contains((x, y));
        match start {
            Some(s) => {
                if !o {
                    let newp = AbsPlate { l: s, r: x - 1 };
                    let acc2 = acc.push(newp);
                    assert forall|k: int| 0 <= k < acc2.len() implies {
                        let p = #[trigger] acc2[k];
                        &&& 0 <= p.l <= p.r < w
                        &&& (forall|c: int| p.l <= c <= p.r ==> #[trigger] occ.contains((c, y)))
                        &&& !occ.contains((p.l - 1, y))
                        &&& !occ.contains((p.r + 1, y))
                        &&& p.r <= x + 1 - 2
                    } by {
                        if k < acc.len() {
                            assert(acc2[k] == acc[k]);
                        } else {
                            assert(acc2[k] == newp);
                            assert(occ.contains((s, y)));
                        }
                    }
                    assert forall|k1: int, k2: int| 0 <= k1 < k2 < acc2.len() implies (
                    #[trigger] acc2[k1]).r + 1 < (#[trigger] acc2[k2]).l by {
                        if k2 < acc.len() {
                            assert(acc2[k1] == acc[k1] && acc2[k2] == acc[k2]);
                        } else {
                            assert(acc2[k1] == acc[k1] && acc2[k2] == newp);
                            assert(acc[k1].r <= s - 2);
                        }
                    }
                    assert forall|c: int| 0 <= c < x + 1 implies (#[trigger] occ.contains((c, y))
                        <==> exists|k: int|
                        0 <= k < acc2.len() && (#[trigger] acc2[k]).l <= c <= acc2[k].r) by {
                        if occ.contains((c, y)) {
                            if c == x {
                                assert(false);
                            } else if s <= c {
                                assert(acc2[acc.len() as int].l <= c <= acc2[
                                    acc.len() as int].r);
                            } else {
                                let k = choose|k: int|
                                    0 <= k < acc.len() && (#[trigger] acc[k]).l <= c
                                        <= acc[k].r;
                                assert(acc2[k].l <= c <= acc2[k].r);
                            }
                        } else {
                            if exists|k: int|
                                0 <= k < acc2.len() && (#[trigger] acc2[k]).l <= c
                                    <= acc2[k].r {
                                let k = choose|k: int|
                                    0 <= k < acc2.len() && (#[trigger] acc2[k]).l <= c
                                        <= acc2[k].r;
                                if k < acc.len() {
                                    assert(occ.contains((c, y)));
                                } else {
                                    assert(s <= c <= x - 1);
                                    assert(occ.contains((c, y)));
                                }
                                assert(false);
                            }
                        }
                    }
                    lemma_scan_row(occ, w, y, x + 1, None, acc2);
                } else {
                    assert forall|c: int| 0 <= c < x + 1 implies (#[trigger] occ.contains((c, y))
                        <==> ((exists|k: int|
                        0 <= k < acc.len() && (#[trigger] acc[k]).l <= c <= acc[k].r) || s
                        <= c)) by {}
                    lemma_scan_row(occ, w, y, x + 1, start, acc);
                }
            },
            None => {
                if o {
                    assert(!occ.contains((x - 1, y))) by {
                        if occ.contains((x - 1, y)) {
                            assert(0 <= x - 1);
                            let k = choose|k: int|
                                0 <= k < acc.len() && (#[trigger] acc[k]).l <= x - 1
                                    <= acc[k].r;
                            assert(acc[k].r <= x - 2);
                        }
                    }
                    lemma_scan_row(occ, w, y, x + 1, Some(x), acc);
                } else {
                    assert forall|c: int| 0 <= c < x + 1 implies (#[trigger] occ.contains((c, y))
                        <==> exists|k: int|
                        0 <= k < acc.len() && (#[trigger] acc[k]).l <= c <= acc[k].r) by {
                        if c == x && occ.contains((c, y)) {
                            assert(false);
                        }
                        if c == x {
                            if exists|k: int|
                                0 <= k < acc.len() && (#[trigger] acc[k]).l <= c
                                    <= acc[k].r {
                                let k = choose|k: int|
                                    0 <= k < acc.len() && (#[trigger] acc[k]).l <= c
                                        <= acc[k].r;
                                assert(acc[k].r <= x - 2);
                                assert(false);
                            }
                        }
                    }
                    lemma_scan_row(occ, w, y, x + 1, None, acc);
                }
            },
        }
    }
}

/// [`lemma_scan_row`] instantiated for a whole row.
proof fn lemma_row_plates(occ: Set<(int, int)>, w: int, y: int)
    requires
        0 <= w,
        forall|p: (int, int)| #[trigger] occ.contains(p) ==> 0 <= p.0 < w,
    ensures
        ({
            let res = row_plates(occ, w, y);
            &&& forall|k: int| 0 <= k < res.len()
                ==> is_plate(occ, w, y, (#[trigger] res[k]).l, res[k].r)
            &&& forall|k1: int, k2: int| 0 <= k1 < k2 < res.len()
                ==> (#[trigger] res[k1]).r + 1 < (#[trigger] res[k2]).l
            &&& forall|c: int| 0 <= c < w ==> (#[trigger] occ.contains((c, y)) <==> exists|k: int|
                0 <= k < res.len() && (#[trigger] res[k]).l <= c <= res[k].r)
        }),
{
    lemma_scan_row(occ, w, y, 0, None, Seq::empty());
    let res = row_plates(occ, w, y);
    assert(res == scan_row(occ, w, y, 0, None, Seq::empty()));
    assert forall|k: int| 0 <= k < res.len() implies is_plate(
        occ,
        w,
        y,
        (#[trigger] res[k]).l,
        res[k].r,
    ) by {
        assert(0 <= res[k].l <= res[k].r < w);
    }
}

// ---------------------------------------------------------------------------
// Rectangle geometry.
// ---------------------------------------------------------------------------

/// The rectangle covers the grid coordinate `p`.
pub open spec fn rect_covers(e: AbsRect, p: (int, int)) -> bool {
    e.l <= p.0 <= e.r && e.b <= p.1 <= e.t
}

/// The two rectangles share no cell.
pub open spec fn rects_disjoint(a: AbsRect, b: AbsRect) -> bool {
    a.r < b.l || b.r < a.l || a.t < b.b || b.t < a.b
}

/// Some rectangle of the list covers `p`.
pub open spec fn some_covers(rects: Seq<AbsRect>, p: (int, int)) -> bool {
    exists|k: int| 0 <= k < rects.len() && rect_covers(#[trigger] rects[k], p)
}

/// Some rectangle of the list has horizontal bounds `(l, r)`.
pub open spec fn key_in_rects(rects: Seq<AbsRect>, l: int, r: int) -> bool {
    exists|k: int| 0 <= k < rects.len() && is_key(#[trigger] rects[k], l, r)
}

/// Every row the rectangle spans is a maximal occupied run of that row.
pub open spec fn rect_rows_plates(occ: Set<(int, int)>, w: int, e: AbsRect) -> bool {
    forall|yy: int| e.b <= yy <= e.t ==> is_plate(occ, w, yy, e.l, e.r)
}

/// An in-progress rectangle: every spanned row is a plate, and the run does
/// not continue below its bottom row.
pub open spec fn rect_open(occ: Set<(int, int)>, w: int, e: AbsRect) -> bool {
    &&& 0 <= e.b <= e.t
    &&& rect_rows_plates(occ, w, e)
    &&& !is_plate(occ, w, e.b - 1, e.l, e.r)
}

/// A finished rectangle: in-progress, and the run does not continue above
/// its top row either.
pub open spec fn rect_closed(occ: Set<(int, int)>, w: int, e: AbsRect) -> bool {
    &&& rect_open(occ, w, e)
    &&& !is_plate(occ, w, e.t + 1, e.l, e.r)
}

/// Two maximal runs of one row that overlap in columns are the same run.
proof fn lemma_plate_unique(occ: Set<(int, int)>, w: int, y: int, l1: int, r1: int, l2: int, r2: int)
    requires
        is_plate(occ, w, y, l1, r1),
        is_plate(occ, w, y, l2, r2),
        l2 <= r1,
        l1 <= r2,
    ensures
        l1 == l2,
        r1 == r2,
{
    if l1 < l2 {
        assert(occ.contains((l2 - 1, y)));
        assert(false);
    }
    if l2 < l1 {
        assert(occ.contains((l1 - 1, y)));
        assert(false);
    }
    if r1 < r2 {
        assert(occ.contains((r1 + 1, y)));
        assert(false);
    }
    if r2 < r1 {
        assert(occ.contains((r2 + 1, y)));
        assert(false);
    }
}

/// Two in-progress rectangles with the same top row either share no cell or
/// are the same rectangle.
proof fn lemma_open_open(occ: Set<(int, int)>, w: int, e1: AbsRect, e2: AbsRect)
    requires
        rect_open(occ, w, e1),
        rect_open(occ, w, e2),
        e1.t == e2.t,
        !rects_disjoint(e1, e2),
    ensures
        e1 == e2,
{
    let yy = if e1.b >= e2.b { e1.b } else { e2.b };
    assert(is_plate(occ, w, yy, e1.l, e1.r));
    assert(is_plate(occ, w, yy, e2.l, e2.r));
    lemma_plate_unique(occ, w, yy, e1.l, e1.r, e2.l, e2.r);
    if e1.b < e2.b {
        assert(is_plate(occ, w, e2.b - 1, e1.l, e1.r));
        assert(false);
    }
    if e2.b < e1.b {
        assert(is_plate(occ, w, e1.b - 1, e2.l, e2.r));
        assert(false);
    }
}

/// A finished rectangle shares no cell with an in-progress rectangle whose
/// top lies strictly higher.
proof fn lemma_closed_open_disjoint(occ: Set<(int, int)>, w: int, e1: AbsRect, e2: AbsRect)
    requires
        rect_closed(occ, w, e1),
        rect_open(occ, w, e2),
        e1.t < e2.t,
    ensures
        rects_disjoint(e1, e2),
{
    if !rects_disjoint(e1, e2) {
        let yy = if e1.b >= e2.b { e1.b } else { e2.b };
        assert(is_plate(occ, w, yy, e1.l, e1.r));
        assert(is_plate(occ, w, yy, e2.l, e2.r));
        lemma_plate_unique(occ, w, yy, e1.l, e1.r, e2.l, e2.r);
        assert(is_plate(occ, w, e1.t + 1, e2.l, e2.r));
        assert(false);
    }
}

/// Two finished rectangles either share no cell or are the same rectangle.
proof fn lemma_closed_closed(occ: Set<(int, int)>, w: int, e1: AbsRect, e2: AbsRect)
    requires
        rect_closed(occ, w, e1),
        rect_closed(occ, w, e2),
        !rects_disjoint(e1, e2),
    ensures
        e1 == e2,
{
    if e1.t < e2.t {
        lemma_closed_open_disjoint(occ, w, e1, e2);
    } else if e2.t < e1.t {
        lemma_closed_open_disjoint(occ, w, e2, e1);
    } else {
        lemma_open_open(occ, w, e1, e2);
    }
}

/// A maximal occupied run of row `y` occurs among the row's plates.
proof fn lemma_is_plate_in_row(occ: Set<(int, int)>, w: int, y: int, l: int, r: int)
    requires
        0 <= w,
        forall|p: (int, int)| #[trigger] occ.contains(p) ==> 0 <= p.0 < w,
        is_plate(occ, w, y, l, r),
    ensures
        key_in_plates_from(row_plates(occ, w, y), 0, l, r),
{
    lemma_row_plates(occ, w, y);
    let res = row_plates(occ, w, y);
    assert(occ.contains((l, y)));
    let k = choose|k: int| 0 <= k < res.len() && (#[trigger] res[k]).l <= l <= res[k].r;
    assert(is_plate(occ, w, y, res[k].l, res[k].r));
    lemma_plate_unique(occ, w, y, l, r, res[k].l, res[k].r);
    assert(res[k].l == l && res[k].r == r);
    assert(key_in_plates_from(res, 0, l, r));
}

// ---------------------------------------------------------------------------
// Phase two: vertical fusion.
// ---------------------------------------------------------------------------

/// The rectangle grown one row upward.
pub open spec fn grow_rect(e: AbsRect) -> AbsRect {
    AbsRect { l: e.l, r: e.r, b: e.b, t: e.t + 1 }
}

/// Close every in-progress rectangle whose plate does not reappear in the
/// current row: walking the previous row's plates from index `i`, such a
/// rectangle moves from `builder` to `done`.
pub open spec fn close_step(
    builder: Seq<AbsRect>,
    done: Seq<AbsRect>,
    prev: Seq<AbsPlate>,
    cur: Seq<AbsPlate>,
    i: int,
) -> (Seq<AbsRect>, Seq<AbsRect>)
    decreases prev.len() - i,
{
    if i < 0 || i >= prev.len() {
        (builder, done)
    } else {
        let p = prev[i];
        if plate_in(cur, p) {
            close_step(builder, done, prev, cur, i + 1)
        } else {
            let k = find_key(builder, p.l, p.r);
            if k == -1 {
                close_step(builder, done, prev, cur, i + 1)
            } else {
                close_step(builder.remove(k), done.push(builder[k]), prev, cur, i + 1)
            }
        }
    }
}

/// Extend or start an in-progress rectangle for every plate of the current
/// row, from index `i` on: a plate whose bounds match an in-progress
/// rectangle grows it one row; any other plate starts a new one at row `y`.
pub open spec fn insert_step(builder: Seq<AbsRect>, cur: Seq<AbsPlate>, y: int, i: int) -> Seq<
    AbsRect,
>
    decreases cur.len() - i,
{
    if i < 0 || i >= cur.len() {
        builder
    } else {
        let p = cur[i];
        let k = find_key(builder, p.l, p.r);
        let b2 = if k == -1 {
            builder.push(AbsRect { l: p.l, r: p.r, b: y, t: y })
        } else {
            builder.update(k, grow_rect(builder[k]))
        };
        insert_step(b2, cur, y, i + 1)
    }
}

/// Process rows `y` and upward: close the rectangles of vanished plates,
/// then extend or start one per current plate.
pub open spec fn fuse_rows(
    rows: Seq<Seq<AbsPlate>>,
    y: int,
    builder: Seq<AbsRect>,
    done: Seq<AbsRect>,
) -> Seq<AbsRect>
    decreases rows.len() - y,
{
    if y < 0 || y >= rows.len() {
        done
    } else {
        let cur = rows[y];
        let prev = if y == 0 {
            Seq::empty()
        } else {
            rows[y - 1]
        };
        let closed = close_step(builder, done, prev, cur, 0);
        let b2 = insert_step(closed.0, cur, y, 0);
        fuse_rows(rows, y + 1, b2, closed.1)
    }
}

/// The full consolidation of the occupied set `occ` on a `w` × `h` grid.
pub open spec fn spec_consolidate(occ: Set<(int, int)>, w: int, h: int) -> Seq<AbsRect> {
    fuse_rows(plate_rows(occ, w, h), 0, Seq::empty(), Seq::empty())
}

/// Consolidation is deterministic: two runs over the same cell set and grid
/// dimensions yield identical rectangle lists. Together with the contract of
/// [`consolidate`], which pins its result to [`spec_consolidate`], this is
/// the idempotence of re-running consolidation.
pub proof fn lemma_consolidate_deterministic(
    r1: Seq<AbsRect>,
    r2: Seq<AbsRect>,
    occ: Set<(int, int)>,
    w: int,
    h: int,
)
    requires
        r1 == spec_consolidate(occ, w, h),
        r2 == spec_consolidate(occ, w, h),
    ensures
        r1 == r2,
{
}

// ---------------------------------------------------------------------------
// Executable algorithm.
// ---------------------------------------------------------------------------

/// Whether the row already holds exactly this plate.
fn plates_contain(row: &Vec<Plate>, p: Plate) -> (found: bool)
    ensures
        found == plate_in(plates_abs(row@), p@),
{
    let mut i: usize = 0;
    while i < row.len()
        invariant
            0 <= i <= row@.len(),
            forall|j: int| 0 <= j < i ==> plates_abs(row@)[j] != p@,
        decreases row@.len() - i,
    {
        if row[i].left == p.left && row[i].right == p.right {
            assert(plates_abs(row@)[i as int] == p@);
            return true;
        }
        assert(plates_abs(row@)[i as int] != p@);
        i = i + 1;
    }
    false
}

/// Index of the in-progress rectangle with bounds `(left, right)`, if any.
fn find_rect(builder: &Vec<Rect>, left: i32, right: i32) -> (found: Option<usize>)
    ensures
        ({
            let k = find_key(rects_abs(builder@), left as int, right as int);
            match found {
                Some(idx) => idx < builder@.len() && k == idx as int,
                None => k == -1,
            }
        }),
{
    let ghost dv = rects_abs(builder@);
    proof {
        lemma_find_key_from(dv, left as int, right as int, 0);
    }
    let mut i: usize = 0;
    while i < builder.len()
        invariant
            0 <= i <= builder@.len(),
            dv == rects_abs(builder@),
            forall|j: int| 0 <= j < i ==> !is_key(#[trigger] dv[j], left as int, right as int),
        decreases builder@.len() - i,
    {
        if builder[i].left == left && builder[i].right == right {
            proof {
                assert(is_key(dv[i as int], left as int, right as int));
                lemma_find_key_from(dv, left as int, right as int, 0);
            }
            return Some(i);
        }
        assert(!is_key(dv[i as int], left as int, right as int));
        i = i + 1;
    }
    proof {
        lemma_find_key_from(dv, left as int, right as int, 0);
    }
    None
}

/// Consolidate the occupied cells of one level into merged rectangles.
///
/// The result is exactly the two-phase greedy merge: row compaction into
/// plates, then vertical fusion of identical plates. An empty cell set
/// yields an empty list.
#[verifier::rlimit(60)]
#[verifier::loop_isolation(false)]
pub fn consolidate(cells: &Vec<Cell>, width: i32, height: i32) -> (rects: Vec<Rect>)
    requires
        0 <= width < i32::MAX,
        0 <= height < i32::MAX,
        cells_in_grid(cells@, width as int, height as int),
    ensures
        rects_abs(rects@) == spec_consolidate(
            cell_set(cells@),
            width as int,
            height as int,
        ),
        // The union of the rectangles is exactly the occupied cell set.
        forall|p: (int, int)| #[trigger] cell_set(cells@).contains(p) <==> some_covers(
            rects_abs(rects@),
            p,
        ),
        // No two rectangles overlap.
        forall|k1: int, k2: int| 0 <= k1 < k2 < rects@.len() ==> rects_disjoint(
            rects_abs(rects@)[k1],
            rects_abs(rects@)[k2],
        ),
        // Every rectangle lies inside the grid, with ordered bounds.
        forall|k: int| 0 <= k < rects@.len() ==> {
            let e = #[trigger] rects_abs(rects@)[k];
            0 <= e.l <= e.r < width as int && 0 <= e.b <= e.t < height as int
        },
{
    let ghost occ = cell_set(cells@);
    let ghost w = width as int;
    let ghost h = height as int;
    proof {
        assert forall|p: (int, int)| #[trigger] occ.contains(p) implies 0 <= p.0 < w && 0 <= p.1
            < h by {
            let i = choose|i: int| 0 <= i < cells@.len() && #[trigger] cells@[i]@ == p;
        }
    }

    // Row compaction: emit the plates of each row, bottom to top.
    let mut plate_stack: Vec<Vec<Plate>> = Vec::new();
    let mut y: i32 = 0;
    while y < height
        invariant
            0 <= y <= height,
            plate_stack@.len() == y as int,
            forall|r: int| 0 <= r < y as int
                ==> plates_abs((#[trigger] plate_stack@[r])@) == row_plates(occ, w, r),
        decreases height - y,
    {
        let mut row: Vec<Plate> = Vec::new();
        proof {
            assert(plates_abs(row@) =~= Seq::<AbsPlate>::empty());
        }
        let mut plate_start: Option<i32> = None;
        let mut x: i32 = 0;
        while x < width + 1
            invariant
                0 <= x <= width + 1,
                match plate_start {
                    Some(s) => 0 <= s < x,
                    None => true,
                },
                scan_row(
                    occ,
                    w,
                    y as int,
                    x as int,
                    match plate_start {
                        Some(s) => Some(s as int),
                        None => None,
                    },
                    plates_abs(row@),
                ) == row_plates(occ, w, y as int),
            decreases width + 1 - x,
        {
            let o = cells_contain(cells, x, y);
            match plate_start {
                Some(s) => {
                    if !o {
                        let ghost row_before = plates_abs(row@);
                        row.push(Plate { left: s, right: x - 1 });
                        plate_start = None;
                        proof {
                            assert(plates_abs(row@) =~= row_before.push(
                                AbsPlate { l: s as int, r: x as int - 1 },
                            ));
                        }
                    }
                },
                None => {
                    if o {
                        plate_start = Some(x);
                    }
                },
            }
            x = x + 1;
        }
        plate_stack.push(row);
        y = y + 1;
    }
    // One empty sentinel row so the fusion below closes rectangles that
    // touch the top edge.
    plate_stack.push(Vec::new());
    let ghost rows = plate_rows(occ, w, h);
    proof {
        assert forall|r: int| 0 <= r < rows.len() implies plates_abs(
            (#[trigger] plate_stack@[r])@,
        ) == rows[r] by {
            if r == h {
                assert(plates_abs(plate_stack@[r]@) =~= Seq::<AbsPlate>::empty());
            }
        }
        assert(plate_stack@.len() == h + 1);
    }

    // Vertical fusion.
    let mut builder: Vec<Rect> = Vec::new();
    let mut done: Vec<Rect> = Vec::new();
    proof {
        assert(rects_abs(builder@) =~= Seq::<AbsRect>::empty());
        assert(rects_abs(done@) =~= Seq::<AbsRect>::empty());
    }
    let mut yi: usize = 0;
    while yi < plate_stack.len()
        invariant
            0 <= yi as int <= h + 1,
            plate_stack@.len() == h + 1,
            forall|r: int| 0 <= r < rows.len()
                ==> plates_abs((#[trigger] plate_stack@[r])@) == rows[r],
            fuse_rows(rows, yi as int, rects_abs(builder@), rects_abs(done@))
                == spec_consolidate(occ, w, h),
            forall|k: int| 0 <= k < builder@.len() ==> {
                let e = #[trigger] rects_abs(builder@)[k];
                &&& e.t == yi as int - 1
                &&& 0 <= e.b <= e.t
                &&& (yi as int >= 1 && key_in_plates_from(rows[yi as int - 1], 0, e.l, e.r))
            },
            forall|k1: int, k2: int| 0 <= k1 < k2 < builder@.len()
                ==> !is_key(
                    #[trigger] rects_abs(builder@)[k1],
                    (#[trigger] rects_abs(builder@)[k2]).l,
                    rects_abs(builder@)[k2].r,
                ),
            forall|k: int| 0 <= k < builder@.len()
                ==> rect_open(occ, w, #[trigger] rects_abs(builder@)[k]),
            forall|k: int| 0 <= k < done@.len()
                ==> rect_closed(occ, w, #[trigger] rects_abs(done@)[k])
                    && rects_abs(done@)[k].t <= yi as int - 2,
            forall|k1: int, k2: int| 0 <= k1 < k2 < done@.len()
                ==> rects_disjoint(rects_abs(done@)[k1], rects_abs(done@)[k2]),
            forall|j: int| 1 <= yi as int && 0 <= j < rows[yi as int - 1].len()
                ==> key_in_rects(
                    rects_abs(builder@),
                    (#[trigger] rows[yi as int - 1][j]).l,
                    rows[yi as int - 1][j].r,
                ),
            forall|p: (int, int)| #[trigger] occ.contains(p) && p.1 < yi as int
                ==> some_covers(rects_abs(done@), p) || some_covers(rects_abs(builder@), p),
        decreases h + 1 - yi as int,
    {
        let ghost cur_dv = rows[yi as int];
        let ghost prev_dv = if yi as int == 0 { Seq::<AbsPlate>::empty() } else {
            rows[yi as int - 1]
        };
        let ghost b0 = rects_abs(builder@);
        let ghost d0 = rects_abs(done@);

        let prev_len: usize = if yi == 0 { 0 } else { plate_stack[yi - 1].len() };
        proof {
            assert(prev_dv.len() == prev_len as int);
            if yi >= 1 {
                lemma_row_plates(occ, w, yi as int - 1);
                assert(prev_dv == row_plates(occ, w, yi as int - 1));
            }
        }

        // Close the rectangles of plates that vanished in this row.
        let mut i: usize = 0;
        while i < prev_len
            invariant
                0 <= i <= prev_len,
                prev_len as int == prev_dv.len(),
                yi as int >= 1 || prev_len == 0,
                yi as int <= h,
                yi as int >= 1 ==> prev_dv == plates_abs(plate_stack@[yi as int - 1]@),
                cur_dv == plates_abs(plate_stack@[yi as int]@),
                close_step(rects_abs(builder@), rects_abs(done@), prev_dv, cur_dv, i as int)
                    == close_step(b0, d0, prev_dv, cur_dv, 0),
                forall|k: int| 0 <= k < builder@.len() ==> {
                    let e = #[trigger] rects_abs(builder@)[k];
                    &&& e.t == yi as int - 1
                    &&& 0 <= e.b <= e.t
                    &&& (key_in_plates_from(cur_dv, 0, e.l, e.r) || key_in_plates_from(
                        prev_dv,
                        i as int,
                        e.l,
                        e.r,
                    ))
                },
                forall|k1: int, k2: int| 0 <= k1 < k2 < builder@.len()
                    ==> !is_key(
                        #[trigger] rects_abs(builder@)[k1],
                        (#[trigger] rects_abs(builder@)[k2]).l,
                        rects_abs(builder@)[k2].r,
                    ),
                forall|j1: int, j2: int| 0 <= j1 < j2 < prev_dv.len()
                    ==> !((#[trigger] prev_dv[j1]).l == (#[trigger] prev_dv[j2]).l
                        && prev_dv[j1].r == prev_dv[j2].r),
                forall|j: int| 0 <= j < prev_dv.len()
                    ==> is_plate(occ, w, yi as int - 1, (#[trigger] prev_dv[j]).l, prev_dv[j].r),
                forall|k: int| 0 <= k < builder@.len()
                    ==> rect_open(occ, w, #[trigger] rects_abs(builder@)[k]),
                forall|k: int| 0 <= k < done@.len()
                    ==> rect_closed(occ, w, #[trigger] rects_abs(done@)[k])
                        && rects_abs(done@)[k].t <= yi as int - 1,
                forall|k1: int, k2: int| 0 <= k1 < k2 < done@.len()
                    ==> rects_disjoint(rects_abs(done@)[k1], rects_abs(done@)[k2]),
                forall|k: int, kb: int|
                    0 <= k < done@.len() && 0 <= kb < builder@.len()
                        && (#[trigger] rects_abs(done@)[k]).t == yi as int - 1
                        ==> !is_key(
                            #[trigger] rects_abs(builder@)[kb],
                            rects_abs(done@)[k].l,
                            rects_abs(done@)[k].r,
                        ),
                forall|k: int|
                    0 <= k < done@.len() && (#[trigger] rects_abs(done@)[k]).t == yi as int - 1
                        ==> !key_in_plates_from(
                            cur_dv,
                            0,
                            rects_abs(done@)[k].l,
                            rects_abs(done@)[k].r,
                        ),
                forall|j: int|
                    0 <= j < prev_dv.len() && (i as int <= j || key_in_plates_from(
                        cur_dv,
                        0,
                        (#[trigger] prev_dv[j]).l,
                        prev_dv[j].r,
                    )) ==> key_in_rects(rects_abs(builder@), prev_dv[j].l, prev_dv[j].r),
                forall|p: (int, int)| #[trigger] occ.contains(p) && p.1 < yi as int
                    ==> some_covers(rects_abs(done@), p) || some_covers(rects_abs(builder@), p),
            decreases prev_len - i,
        {
            let p = plate_stack[yi - 1][i];
            proof {
                assert(p@ == prev_dv[i as int]);
            }
            let present = plates_contain(&plate_stack[yi], p);
            if !present {
                let found = find_rect(&builder, p.left, p.right);
                match found {
                    Some(k) => {
                        let ghost bprev = rects_abs(builder@);
                        let ghost dprev = rects_abs(done@);
                        let r = builder.remove(k);
                        done.push(r);
                        proof {
                            assert(rects_abs(builder@) =~= bprev.remove(k as int));
                            assert(rects_abs(done@) =~= dprev.push(bprev[k as int]));
                            assert(close_step(bprev, dprev, prev_dv, cur_dv, i as int)
                                == close_step(
                                rects_abs(builder@),
                                rects_abs(done@),
                                prev_dv,
                                cur_dv,
                                i as int + 1,
                            ));
                            assert forall|kk: int| 0 <= kk < builder@.len() implies {
                                let e = #[trigger] rects_abs(builder@)[kk];
                                key_in_plates_from(cur_dv, 0, e.l, e.r) || key_in_plates_from(
                                    prev_dv,
                                    i as int + 1,
                                    e.l,
                                    e.r,
                                )
                            } by {
                                let e = rects_abs(builder@)[kk];
                                let ko = if kk < k as int { kk } else { kk + 1 };
                                assert(e == bprev[ko]);
                                if !key_in_plates_from(cur_dv, 0, e.l, e.r) {
                                    let j = choose|j: int|
                                        i as int <= j < prev_dv.len()
                                            && (#[trigger] prev_dv[j]).l == e.l
                                            && prev_dv[j].r == e.r;
                                    if j == i as int {
                                        // This key matches the removed entry, the
                                        // only one with it; contradiction.
                                        lemma_find_key_from(bprev, p@.l, p@.r, 0);
                                        assert(is_key(bprev[k as int], p@.l, p@.r));
                                        assert(is_key(bprev[ko], p@.l, p@.r));
                                        assert(false);
                                    } else {
                                        assert(key_in_plates_from(prev_dv, i as int + 1, e.l, e.r));
                                    }
                                }
                            }
                            let e2 = bprev[k as int];
                            lemma_find_key_from(bprev, p@.l, p@.r, 0);
                            assert(is_key(e2, p@.l, p@.r));
                            // The closed rectangle's plate does not reappear.
                            assert(!key_in_plates_from(cur_dv, 0, e2.l, e2.r)) by {
                                if key_in_plates_from(cur_dv, 0, e2.l, e2.r) {
                                    let j = choose|j: int|
                                        0 <= j < cur_dv.len() && (#[trigger] cur_dv[j]).l == e2.l
                                            && cur_dv[j].r == e2.r;
                                    assert(cur_dv[j] == p@);
                                    assert(plate_in(cur_dv, p@));
                                    assert(false);
                                }
                            }
                            // So the run does not continue in row yi: closed.
                            assert(rect_closed(occ, w, e2)) by {
                                if is_plate(occ, w, yi as int, e2.l, e2.r) {
                                    if yi as int == h {
                                        assert(occ.contains((e2.l, yi as int)));
                                        assert(false);
                                    } else {
                                        lemma_is_plate_in_row(occ, w, yi as int, e2.l, e2.r);
                                        assert(cur_dv == row_plates(occ, w, yi as int));
                                        assert(false);
                                    }
                                }
                            }
                            // The new done list: closed, bounded tops, disjoint.
                            assert forall|kk: int| 0 <= kk < done@.len() implies rect_closed(
                                occ,
                                w,
                                #[trigger] rects_abs(done@)[kk],
                            ) && rects_abs(done@)[kk].t <= yi as int - 1 by {
                                if kk < dprev.len() {
                                    assert(rects_abs(done@)[kk] == dprev[kk]);
                                } else {
                                    assert(rects_abs(done@)[kk] == e2);
                                }
                            }
                            assert forall|k1: int, k2: int| 0 <= k1 < k2 < done@.len()
                                implies rects_disjoint(
                                rects_abs(done@)[k1],
                                rects_abs(done@)[k2],
                            ) by {
                                if k2 == dprev.len() as int {
                                    let e1 = dprev[k1];
                                    assert(rects_abs(done@)[k1] == e1);
                                    assert(rects_abs(done@)[k2] == e2);
                                    if !rects_disjoint(e1, e2) {
                                        lemma_closed_closed(occ, w, e1, e2);
                                        if e1.t == yi as int - 1 {
                                            // Closed this pass: its key differs from
                                            // every in-progress one, including e2's.
                                            assert(!is_key(bprev[k as int], e1.l, e1.r));
                                            assert(false);
                                        } else {
                                            assert(e1.t < e2.t);
                                            assert(false);
                                        }
                                    }
                                } else {
                                    assert(rects_abs(done@)[k1] == dprev[k1]);
                                    assert(rects_abs(done@)[k2] == dprev[k2]);
                                }
                            }
                            // Keys of rectangles closed this pass stay distinct
                            // from the remaining in-progress keys.
                            assert forall|kk: int, kb: int|
                                0 <= kk < done@.len() && 0 <= kb < builder@.len()
                                    && (#[trigger] rects_abs(done@)[kk]).t == yi as int - 1
                                    implies !is_key(
                                    #[trigger] rects_abs(builder@)[kb],
                                    rects_abs(done@)[kk].l,
                                    rects_abs(done@)[kk].r,
                                ) by {
                                let ko = if kb < k as int { kb } else { kb + 1 };
                                assert(rects_abs(builder@)[kb] == bprev[ko]);
                                if kk == dprev.len() as int {
                                    assert(rects_abs(done@)[kk] == e2);
                                    if ko < k as int {
                                        assert(!is_key(bprev[ko], bprev[k as int].l,
                                            bprev[k as int].r));
                                    } else {
                                        assert(!is_key(bprev[k as int], bprev[ko].l,
                                            bprev[ko].r));
                                    }
                                } else {
                                    assert(rects_abs(done@)[kk] == dprev[kk]);
                                }
                            }
                            // Unprocessed plates, and plates that reappear, still
                            // have their in-progress rectangle.
                            assert forall|j: int|
                                0 <= j < prev_dv.len() && (i as int + 1 <= j
                                    || key_in_plates_from(
                                    cur_dv,
                                    0,
                                    (#[trigger] prev_dv[j]).l,
                                    prev_dv[j].r,
                                )) implies key_in_rects(
                                rects_abs(builder@),
                                prev_dv[j].l,
                                prev_dv[j].r,
                            ) by {
                                assert(key_in_rects(bprev, prev_dv[j].l, prev_dv[j].r));
                                let kb = choose|kb: int|
                                    0 <= kb < bprev.len() && is_key(
                                        #[trigger] bprev[kb],
                                        prev_dv[j].l,
                                        prev_dv[j].r,
                                    );
                                assert(j != i as int);
                                assert(!(prev_dv[j].l == prev_dv[i as int].l && prev_dv[j].r
                                    == prev_dv[i as int].r));
                                assert(kb != k as int);
                                let kn = if kb < k as int { kb } else { kb - 1 };
                                assert(rects_abs(builder@)[kn] == bprev[kb]);
                                assert(is_key(rects_abs(builder@)[kn], prev_dv[j].l,
                                    prev_dv[j].r));
                            }
                            // Covered cells are preserved: the moved rectangle
                            // now covers from the done list.
                            assert forall|p2: (int, int)|
                                #[trigger] occ.contains(p2) && p2.1 < yi as int
                                    implies some_covers(rects_abs(done@), p2) || some_covers(
                                    rects_abs(builder@),
                                    p2,
                                ) by {
                                if some_covers(dprev, p2) {
                                    let kd = choose|kd: int|
                                        0 <= kd < dprev.len() && rect_covers(
                                            #[trigger] dprev[kd],
                                            p2,
                                        );
                                    assert(rect_covers(rects_abs(done@)[kd], p2));
                                } else {
                                    let kb = choose|kb: int|
                                        0 <= kb < bprev.len() && rect_covers(
                                            #[trigger] bprev[kb],
                                            p2,
                                        );
                                    if kb == k as int {
                                        assert(rect_covers(
                                            rects_abs(done@)[dprev.len() as int],
                                            p2,
                                        ));
                                    } else {
                                        let kn = if kb < k as int { kb } else { kb - 1 };
                                        assert(rects_abs(builder@)[kn] == bprev[kb]);
                                        assert(rect_covers(rects_abs(builder@)[kn], p2));
                                    }
                                }
                            }
                            // Remaining in-progress rectangles keep their shape.
                            assert forall|kk: int| 0 <= kk < builder@.len() implies rect_open(
                                occ,
                                w,
                                #[trigger] rects_abs(builder@)[kk],
                            ) by {
                                let ko = if kk < k as int { kk } else { kk + 1 };
                                assert(rects_abs(builder@)[kk] == bprev[ko]);
                            }
                        }
                    },
                    None => {
                        proof {
                            let bnow = rects_abs(builder@);
                            assert forall|kk: int| 0 <= kk < builder@.len() implies {
                                let e = #[trigger] bnow[kk];
                                key_in_plates_from(cur_dv, 0, e.l, e.r) || key_in_plates_from(
                                    prev_dv,
                                    i as int + 1,
                                    e.l,
                                    e.r,
                                )
                            } by {
                                let e = bnow[kk];
                                if !key_in_plates_from(cur_dv, 0, e.l, e.r) {
                                    let j = choose|j: int|
                                        i as int <= j < prev_dv.len()
                                            && (#[trigger] prev_dv[j]).l == e.l
                                            && prev_dv[j].r == e.r;
                                    if j == i as int {
                                        lemma_find_key_from(bnow, p@.l, p@.r, 0);
                                        assert(is_key(bnow[kk], p@.l, p@.r));
                                        assert(false);
                                    } else {
                                        assert(key_in_plates_from(prev_dv, i as int + 1, e.l, e.r));
                                    }
                                }
                            }
                        }
                    },
                }
            } else {
                proof {
                    assert(plate_in(cur_dv, prev_dv[i as int]));
                    let bnow = rects_abs(builder@);
                    assert forall|kk: int| 0 <= kk < builder@.len() implies {
                        let e = #[trigger] bnow[kk];
                        key_in_plates_from(cur_dv, 0, e.l, e.r) || key_in_plates_from(
                            prev_dv,
                            i as int + 1,
                            e.l,
                            e.r,
                        )
                    } by {
                        let e = bnow[kk];
                        if !key_in_plates_from(cur_dv, 0, e.l, e.r) {
                            let j = choose|j: int|
                                i as int <= j < prev_dv.len()
                                    && (#[trigger] prev_dv[j]).l == e.l
                                    && prev_dv[j].r == e.r;
                            if j == i as int {
                                // prev[i] reappears in the current row, so a key
                                // equal to it is in the current row too.
                                let m = choose|m: int|
                                    0 <= m < cur_dv.len() && cur_dv[m] == prev_dv[i as int];
                                assert(cur_dv[m].l == e.l && cur_dv[m].r == e.r);
                                assert(false);
                            } else {
                                assert(key_in_plates_from(prev_dv, i as int + 1, e.l, e.r));
                            }
                        }
                    }
                }
            }
            i = i + 1;
        }

        // Extend or start a rectangle for each plate of this row.
        let ghost b1 = rects_abs(builder@);
        let ghost d1 = rects_abs(done@);
        proof {
            // Every surviving rectangle's plate reappears in the current row.
            assert forall|k: int| 0 <= k < builder@.len() implies {
                let e = #[trigger] rects_abs(builder@)[k];
                key_in_plates_from(cur_dv, 0, e.l, e.r)
            } by {
                let e = rects_abs(builder@)[k];
                assert(!key_in_plates_from(prev_dv, prev_dv.len() as int, e.l, e.r));
            }
            if (yi as int) < h {
                lemma_row_plates(occ, w, yi as int);
                assert(cur_dv == row_plates(occ, w, yi as int));
                assert forall|j1: int, j2: int| 0 <= j1 < j2 < cur_dv.len() implies !((
                #[trigger] cur_dv[j1]).l == (#[trigger] cur_dv[j2]).l && cur_dv[j1].r
                    == cur_dv[j2].r) by {
                    assert(cur_dv[j1].r + 1 < cur_dv[j2].l);
                }
            }
            assert(cur_dv.len() == 0 || cur_dv == row_plates(occ, w, yi as int));
        }
        let cur_len: usize = plate_stack[yi].len();
        let mut i: usize = 0;
        while i < cur_len
            invariant
                0 <= i <= cur_len,
                cur_len as int == cur_dv.len(),
                yi as int <= h,
                cur_dv == plates_abs(plate_stack@[yi as int]@),
                insert_step(rects_abs(builder@), cur_dv, yi as int, i as int)
                    == insert_step(b1, cur_dv, yi as int, 0),
                forall|j1: int, j2: int| 0 <= j1 < j2 < cur_dv.len()
                    ==> !((#[trigger] cur_dv[j1]).l == (#[trigger] cur_dv[j2]).l
                        && cur_dv[j1].r == cur_dv[j2].r),
                forall|k: int| 0 <= k < builder@.len() ==> {
                    let e = #[trigger] rects_abs(builder@)[k];
                    &&& 0 <= e.b <= e.t
                    &&& key_in_plates_from(cur_dv, 0, e.l, e.r)
                    &&& (if key_in_plates_from(cur_dv, i as int, e.l, e.r) {
                        e.t == yi as int - 1
                    } else {
                        e.t == yi as int
                    })
                },
                forall|k1: int, k2: int| 0 <= k1 < k2 < builder@.len()
                    ==> !is_key(
                        #[trigger] rects_abs(builder@)[k1],
                        (#[trigger] rects_abs(builder@)[k2]).l,
                        rects_abs(builder@)[k2].r,
                    ),
                forall|j: int| 0 <= j < cur_dv.len()
                    ==> is_plate(occ, w, yi as int, (#[trigger] cur_dv[j]).l, cur_dv[j].r),
                forall|k: int| 0 <= k < builder@.len()
                    ==> rect_open(occ, w, #[trigger] rects_abs(builder@)[k]),
                forall|k: int| 0 <= k < done@.len()
                    ==> rect_closed(occ, w, #[trigger] rects_abs(done@)[k])
                        && rects_abs(done@)[k].t <= yi as int - 1,
                forall|k1: int, k2: int| 0 <= k1 < k2 < done@.len()
                    ==> rects_disjoint(rects_abs(done@)[k1], rects_abs(done@)[k2]),
                forall|k: int|
                    0 <= k < done@.len() && (#[trigger] rects_abs(done@)[k]).t == yi as int - 1
                        ==> !key_in_plates_from(
                            cur_dv,
                            0,
                            rects_abs(done@)[k].l,
                            rects_abs(done@)[k].r,
                        ),
                forall|j: int| 0 <= j < i as int ==> key_in_rects(
                    rects_abs(builder@),
                    (#[trigger] cur_dv[j]).l,
                    cur_dv[j].r,
                ),
                forall|j: int|
                    0 <= j < prev_dv.len() && key_in_plates_from(
                        cur_dv,
                        0,
                        (#[trigger] prev_dv[j]).l,
                        prev_dv[j].r,
                    ) ==> key_in_rects(rects_abs(builder@), prev_dv[j].l, prev_dv[j].r),
                forall|p: (int, int)| #[trigger] occ.contains(p) && p.1 < yi as int
                    ==> some_covers(rects_abs(done@), p) || some_covers(rects_abs(builder@), p),
            decreases cur_len - i,
        {
            let p = plate_stack[yi][i];
            proof {
                assert(p@ == cur_dv[i as int]);
            }
            let found = find_rect(&builder, p.left, p.right);
            match found {
                Some(k) => {
                    let ghost bprev = rects_abs(builder@);
                    let old_r = builder[k];
                    proof {
                        assert(bprev[k as int] == old_r@);
                        lemma_find_key_from(bprev, p.left as int, p.right as int, 0);
                        assert(is_key(bprev[k as int], p@.l, p@.r));
                        assert((#[trigger] cur_dv[i as int]).l == old_r@.l
                            && cur_dv[i as int].r == old_r@.r);
                        assert(key_in_plates_from(cur_dv, i as int, old_r@.l, old_r@.r));
                        assert(old_r@.t == yi as int - 1);
                    }
                    builder[k] = Rect {
                        left: old_r.left,
                        right: old_r.right,
                        bottom: old_r.bottom,
                        top: old_r.top + 1,
                    };
                    proof {
                        assert(rects_abs(builder@) =~= bprev.update(
                            k as int,
                            grow_rect(bprev[k as int]),
                        ));
                        assert forall|kk: int| 0 <= kk < builder@.len() implies {
                            let e = #[trigger] rects_abs(builder@)[kk];
                            &&& 0 <= e.b <= e.t
                            &&& (if key_in_plates_from(cur_dv, i as int + 1, e.l, e.r) {
                                e.t == yi as int - 1
                            } else {
                                e.t == yi as int
                            })
                        } by {
                            let e = rects_abs(builder@)[kk];
                            if kk == k as int {
                                if key_in_plates_from(cur_dv, i as int + 1, e.l, e.r) {
                                    // A later plate with the same bounds would
                                    // duplicate cur[i]; plates are distinct.
                                    let j = choose|j: int|
                                        i as int + 1 <= j < cur_dv.len()
                                            && (#[trigger] cur_dv[j]).l == e.l
                                            && cur_dv[j].r == e.r;
                                    assert(cur_dv[i as int].l == cur_dv[j].l
                                        && cur_dv[i as int].r == cur_dv[j].r);
                                    assert(false);
                                }
                            } else {
                                assert(e == bprev[kk]);
                                if key_in_plates_from(cur_dv, i as int + 1, e.l, e.r) {
                                    let j = choose|j: int|
                                        i as int + 1 <= j < cur_dv.len()
                                            && (#[trigger] cur_dv[j]).l == e.l
                                            && cur_dv[j].r == e.r;
                                    assert(i as int <= j < cur_dv.len()
                                        && cur_dv[j].l == e.l && cur_dv[j].r == e.r);
                                    assert(key_in_plates_from(cur_dv, i as int, e.l, e.r));
                                } else {
                                    if key_in_plates_from(cur_dv, i as int, e.l, e.r) {
                                        // The only matching plate was cur[i], whose
                                        // rectangle is at index k, not kk.
                                        let j = choose|j: int|
                                            i as int <= j < cur_dv.len()
                                                && (#[trigger] cur_dv[j]).l == e.l
                                                && cur_dv[j].r == e.r;
                                        assert(j == i as int);
                                        assert(is_key(bprev[kk], cur_dv[i as int].l,
                                            cur_dv[i as int].r));
                                        assert(is_key(bprev[k as int], cur_dv[i as int].l,
                                            cur_dv[i as int].r));
                                        assert(false);
                                    }
                                }
                            }
                        }
                        // The grown rectangle spans one more row, itself a plate.
                        assert forall|kk: int| 0 <= kk < builder@.len() implies rect_open(
                            occ,
                            w,
                            #[trigger] rects_abs(builder@)[kk],
                        ) by {
                            let e = rects_abs(builder@)[kk];
                            if kk == k as int {
                                let eo = bprev[k as int];
                                assert(e == grow_rect(eo));
                                assert(is_plate(occ, w, yi as int, cur_dv[i as int].l,
                                    cur_dv[i as int].r));
                                assert forall|yy: int| e.b <= yy <= e.t implies is_plate(
                                    occ,
                                    w,
                                    yy,
                                    e.l,
                                    e.r,
                                ) by {
                                    if yy <= eo.t {
                                        assert(is_plate(occ, w, yy, eo.l, eo.r));
                                    } else {
                                        assert(yy == yi as int);
                                    }
                                }
                            } else {
                                assert(e == bprev[kk]);
                            }
                        }
                        // Keys are unchanged, so every earlier lookup still wins.
                        assert forall|j: int| 0 <= j < i as int + 1 implies key_in_rects(
                            rects_abs(builder@),
                            (#[trigger] cur_dv[j]).l,
                            cur_dv[j].r,
                        ) by {
                            if j == i as int {
                                assert(is_key(rects_abs(builder@)[k as int], cur_dv[j].l,
                                    cur_dv[j].r));
                            } else {
                                let kb = choose|kb: int|
                                    0 <= kb < bprev.len() && is_key(
                                        #[trigger] bprev[kb],
                                        cur_dv[j].l,
                                        cur_dv[j].r,
                                    );
                                assert(is_key(rects_abs(builder@)[kb], cur_dv[j].l,
                                    cur_dv[j].r));
                            }
                        }
                        assert forall|j: int|
                            0 <= j < prev_dv.len() && key_in_plates_from(
                                cur_dv,
                                0,
                                (#[trigger] prev_dv[j]).l,
                                prev_dv[j].r,
                            ) implies key_in_rects(
                            rects_abs(builder@),
                            prev_dv[j].l,
                            prev_dv[j].r,
                        ) by {
                            let kb = choose|kb: int|
                                0 <= kb < bprev.len() && is_key(
                                    #[trigger] bprev[kb],
                                    prev_dv[j].l,
                                    prev_dv[j].r,
                                );
                            assert(is_key(rects_abs(builder@)[kb], prev_dv[j].l, prev_dv[j].r));
                        }
                        // Growing a rectangle keeps every covered cell covered.
                        assert forall|p2: (int, int)|
                            #[trigger] occ.contains(p2) && p2.1 < yi as int
                                implies some_covers(rects_abs(done@), p2) || some_covers(
                                rects_abs(builder@),
                                p2,
                            ) by {
                            if !some_covers(rects_abs(done@), p2) {
                                let kb = choose|kb: int|
                                    0 <= kb < bprev.len() && rect_covers(#[trigger] bprev[kb], p2);
                                assert(rect_covers(rects_abs(builder@)[kb], p2));
                            }
                        }
                    }
                },
                None => {
                    let ghost bprev = rects_abs(builder@);
                    proof {
                        lemma_find_key_from(bprev, p.left as int, p.right as int, 0);
                    }
                    builder.push(Rect { left: p.left, right: p.right, bottom: yi as i32, top: yi as i32 });
                    proof {
                        assert(rects_abs(builder@) =~= bprev.push(
                            AbsRect { l: p.left as int, r: p.right as int, b: yi as int, t: yi as int },
                        ));
                        assert forall|kk: int| 0 <= kk < builder@.len() implies {
                            let e = #[trigger] rects_abs(builder@)[kk];
                            &&& 0 <= e.b <= e.t
                            &&& (if key_in_plates_from(cur_dv, i as int + 1, e.l, e.r) {
                                e.t == yi as int - 1
                            } else {
                                e.t == yi as int
                            })
                        } by {
                            let e = rects_abs(builder@)[kk];
                            if kk == bprev.len() as int {
                                if key_in_plates_from(cur_dv, i as int + 1, e.l, e.r) {
                                    let j = choose|j: int|
                                        i as int + 1 <= j < cur_dv.len()
                                            && (#[trigger] cur_dv[j]).l == e.l
                                            && cur_dv[j].r == e.r;
                                    assert(cur_dv[i as int].l == cur_dv[j].l
                                        && cur_dv[i as int].r == cur_dv[j].r);
                                    assert(false);
                                }
                            } else {
                                assert(e == bprev[kk]);
                                if key_in_plates_from(cur_dv, i as int + 1, e.l, e.r) {
                                    let j = choose|j: int|
                                        i as int + 1 <= j < cur_dv.len()
                                            && (#[trigger] cur_dv[j]).l == e.l
                                            && cur_dv[j].r == e.r;
                                    assert(i as int <= j < cur_dv.len()
                                        && cur_dv[j].l == e.l && cur_dv[j].r == e.r);
                                    assert(key_in_plates_from(cur_dv, i as int, e.l, e.r));
                                } else {
                                    if key_in_plates_from(cur_dv, i as int, e.l, e.r) {
                                        let j = choose|j: int|
                                            i as int <= j < cur_dv.len()
                                                && (#[trigger] cur_dv[j]).l == e.l
                                                && cur_dv[j].r == e.r;
                                        assert(j == i as int);
                                        assert(is_key(bprev[kk], p.left as int, p.right as int));
                                        assert(false);
                                    }
                                }
                            }
                        }
                        let en = AbsRect {
                            l: p.left as int,
                            r: p.right as int,
                            b: yi as int,
                            t: yi as int,
                        };
                        // The new one-row rectangle is a plate of this row, and
                        // the run does not continue below: a plate of the row
                        // beneath with these bounds would still have its
                        // in-progress rectangle, and the lookup found none.
                        assert(rect_open(occ, w, en)) by {
                            assert(is_plate(occ, w, yi as int, en.l, en.r));
                            if is_plate(occ, w, yi as int - 1, en.l, en.r) {
                                if yi == 0 {
                                    assert(occ.contains((en.l, -1)));
                                    assert(false);
                                } else {
                                    lemma_is_plate_in_row(occ, w, yi as int - 1, en.l, en.r);
                                    assert(prev_dv == row_plates(occ, w, yi as int - 1));
                                    let j = choose|j: int|
                                        0 <= j < prev_dv.len() && (#[trigger] prev_dv[j]).l
                                            == en.l && prev_dv[j].r == en.r;
                                    assert(key_in_plates_from(cur_dv, 0, prev_dv[j].l,
                                        prev_dv[j].r));
                                    assert(key_in_rects(bprev, prev_dv[j].l, prev_dv[j].r));
                                    let kb = choose|kb: int|
                                        0 <= kb < bprev.len() && is_key(
                                            #[trigger] bprev[kb],
                                            prev_dv[j].l,
                                            prev_dv[j].r,
                                        );
                                    assert(false);
                                }
                            }
                        }
                        assert forall|kk: int| 0 <= kk < builder@.len() implies rect_open(
                            occ,
                            w,
                            #[trigger] rects_abs(builder@)[kk],
                        ) by {
                            if kk < bprev.len() {
                                assert(rects_abs(builder@)[kk] == bprev[kk]);
                            } else {
                                assert(rects_abs(builder@)[kk] == en);
                            }
                        }
                        assert forall|j: int| 0 <= j < i as int + 1 implies key_in_rects(
                            rects_abs(builder@),
                            (#[trigger] cur_dv[j]).l,
                            cur_dv[j].r,
                        ) by {
                            if j == i as int {
                                assert(is_key(rects_abs(builder@)[bprev.len() as int],
                                    cur_dv[j].l, cur_dv[j].r));
                            } else {
                                let kb = choose|kb: int|
                                    0 <= kb < bprev.len() && is_key(
                                        #[trigger] bprev[kb],
                                        cur_dv[j].l,
                                        cur_dv[j].r,
                                    );
                                assert(is_key(rects_abs(builder@)[kb], cur_dv[j].l,
                                    cur_dv[j].r));
                            }
                        }
                        assert forall|j: int|
                            0 <= j < prev_dv.len() && key_in_plates_from(
                                cur_dv,
                                0,
                                (#[trigger] prev_dv[j]).l,
                                prev_dv[j].r,
                            ) implies key_in_rects(
                            rects_abs(builder@),
                            prev_dv[j].l,
                            prev_dv[j].r,
                        ) by {
                            let kb = choose|kb: int|
                                0 <= kb < bprev.len() && is_key(
                                    #[trigger] bprev[kb],
                                    prev_dv[j].l,
                                    prev_dv[j].r,
                                );
                            assert(is_key(rects_abs(builder@)[kb], prev_dv[j].l, prev_dv[j].r));
                        }
                        assert forall|p2: (int, int)|
                            #[trigger] occ.contains(p2) && p2.1 < yi as int
                                implies some_covers(rects_abs(done@), p2) || some_covers(
                                rects_abs(builder@),
                                p2,
                            ) by {
                            if !some_covers(rects_abs(done@), p2) {
                                let kb = choose|kb: int|
                                    0 <= kb < bprev.len() && rect_covers(#[trigger] bprev[kb], p2);
                                assert(rect_covers(rects_abs(builder@)[kb], p2));
                            }
                        }
                    }
                },
            }
            i = i + 1;
        }
        proof {
            assert forall|k: int| 0 <= k < builder@.len() implies {
                let e = #[trigger] rects_abs(builder@)[k];
                &&& e.t == yi as int
                &&& 0 <= e.b <= e.t
                &&& key_in_plates_from(cur_dv, 0, e.l, e.r)
            } by {
                let e = rects_abs(builder@)[k];
                assert(!key_in_plates_from(cur_dv, cur_dv.len() as int, e.l, e.r));
            }
            // The cells of the row just processed are covered now too.
            assert forall|p2: (int, int)|
                #[trigger] occ.contains(p2) && p2.1 < yi as int + 1 implies some_covers(
                rects_abs(done@),
                p2,
            ) || some_covers(rects_abs(builder@), p2) by {
                if p2.1 == yi as int {
                    assert((yi as int) < h);
                    assert(cur_dv == row_plates(occ, w, yi as int));
                    lemma_row_plates(occ, w, yi as int);
                    assert(occ.contains((p2.0, yi as int)));
                    let j = choose|j: int|
                        0 <= j < cur_dv.len() && (#[trigger] cur_dv[j]).l <= p2.0
                            <= cur_dv[j].r;
                    assert(key_in_rects(rects_abs(builder@), cur_dv[j].l, cur_dv[j].r));
                    let kb = choose|kb: int|
                        0 <= kb < rects_abs(builder@).len() && is_key(
                            #[trigger] rects_abs(builder@)[kb],
                            cur_dv[j].l,
                            cur_dv[j].r,
                        );
                    assert(rect_covers(rects_abs(builder@)[kb], p2));
                }
            }
            // Connect one fusion step of the mirror to the two passes above.
            let closed = close_step(b0, d0, prev_dv, cur_dv, 0);
            assert(close_step(b1, d1, prev_dv, cur_dv, prev_dv.len() as int) == (b1, d1));
            assert(closed == (b1, d1));
            assert(insert_step(rects_abs(builder@), cur_dv, yi as int, cur_dv.len() as int)
                == rects_abs(builder@));
            assert(fuse_rows(rows, yi as int, b0, d0) == fuse_rows(
                rows,
                yi as int + 1,
                rects_abs(builder@),
                rects_abs(done@),
            ));
        }
        yi = yi + 1;
    }
    proof {
        assert(rects_abs(done@) == spec_consolidate(occ, w, h));
        // No rectangle is left in progress: it would name a plate of the
        // empty sentinel row.
        assert(builder@.len() == 0) by {
            if builder@.len() > 0 {
                assert(key_in_plates_from(
                    rows[yi as int - 1],
                    0,
                    rects_abs(builder@)[0].l,
                    rects_abs(builder@)[0].r,
                ));
                let j = choose|j: int|
                    0 <= j < rows[yi as int - 1].len() && (#[trigger] rows[yi as int - 1][j]).l
                        == rects_abs(builder@)[0].l && rows[yi as int - 1][j].r == rects_abs(
                        builder@,
                    )[0].r;
                assert(false);
            }
        }
        // Exact coverage, in both directions.
        assert forall|p: (int, int)| #[trigger] occ.contains(p) implies some_covers(
            rects_abs(done@),
            p,
        ) by {
            assert(p.1 < yi as int);
            if some_covers(rects_abs(builder@), p) {
                let kb = choose|kb: int|
                    0 <= kb < rects_abs(builder@).len() && rect_covers(
                        #[trigger] rects_abs(builder@)[kb],
                        p,
                    );
                assert(false);
            }
        }
        assert forall|p: (int, int)| some_covers(rects_abs(done@), p) implies occ.contains(
            p,
        ) by {
            let k = choose|k: int|
                0 <= k < rects_abs(done@).len() && rect_covers(#[trigger] rects_abs(done@)[k], p);
            let e = rects_abs(done@)[k];
            assert(is_plate(occ, w, p.1, e.l, e.r));
            assert(occ.contains((p.0, p.1)));
            assert(p == (p.0, p.1));
        }
        // Every rectangle sits inside the grid.
        assert forall|k: int| 0 <= k < done@.len() implies {
            let e = #[trigger] rects_abs(done@)[k];
            0 <= e.l <= e.r < w && 0 <= e.b <= e.t < h
        } by {
            let e = rects_abs(done@)[k];
            assert(is_plate(occ, w, e.b, e.l, e.r));
            assert(is_plate(occ, w, e.t, e.l, e.r));
            assert(occ.contains((e.l, e.t)));
        }
    }
    done
}

/// The physics shape of one rectangle, in world units. To keep every value
/// integral, the centre is stored doubled: the true centre of the cuboid is
/// `(center_x2 / 2, center_y2 / 2)` world units, and its half-extents are
/// `(width / 2, height / 2)`.
#[derive(Clone, Copy, PartialEq, Eq, Structural, Debug)]
pub struct ColliderShape {
    pub width: i64,
    pub height: i64,
    pub center_x2: i64,
    pub center_y2: i64,
}

/// Convert a rectangle's grid-unit bounds into the world-unit cuboid the
/// physics engine is given, for cells of `grid_size` world units.
pub fn collider_shape(rect: &Rect, grid_size: i32) -> (shape: ColliderShape)
    requires
        0 <= rect@.l <= rect@.r,
        0 <= rect@.b <= rect@.t,
        0 <= grid_size,
    ensures
        shape.width == (rect@.r - rect@.l + 1) * grid_size as int,
        shape.height == (rect@.t - rect@.b + 1) * grid_size as int,
        shape.center_x2 == (rect@.l + rect@.r + 1) * grid_size as int,
        shape.center_y2 == (rect@.b + rect@.t + 1) * grid_size as int,
{
    let gs = grid_size as i64;
    proof {
        let g = grid_size as int;
        assert(forall|d: int| 1 <= d <= 0x1_0000_0000 && 0 <= g < 0x8000_0000
            ==> 0 <= #[trigger] (d * g) < 0x8000_0000_0000_0000) by (nonlinear_arith);
        assert(1 <= rect@.r - rect@.l + 1 <= 0x1_0000_0000);
        assert(1 <= rect@.t - rect@.b + 1 <= 0x1_0000_0000);
        assert(1 <= rect@.l + rect@.r + 1 <= 0x1_0000_0000);
        assert(1 <= rect@.b + rect@.t + 1 <= 0x1_0000_0000);
    }
    ColliderShape {
        width: (rect.right as i64 - rect.left as i64 + 1) * gs,
        height: (rect.top as i64 - rect.bottom as i64 + 1) * gs,
        center_x2: (rect.left as i64 + rect.right as i64 + 1) * gs,
        center_y2: (rect.bottom as i64 + rect.top as i64 + 1) * gs,
    }
}

} // verus!
