//! Per-level index of occupied wall cells.
//!
//! Wall markers discovered while a level spawns are inserted here, keyed by
//! the owning level. The consolidator consumes one level's cell set at a
//! time. A cell belongs to exactly one level's set: insertion names the
//! level, and each level's list keeps no duplicates.

use vstd::prelude::*;

use crate::Cell;

verus! {

/// The mathematical contents of one cell list: the set of coordinates.
pub open spec fn cell_set(cells: Seq<Cell>) -> Set<(int, int)> {
    Set::new(|p: (int, int)| exists|i: int| 0 <= i < cells.len() && #[trigger] cells[i]@ == p)
}

/// True when every cell of `cells` lies inside the `width` × `height` grid.
pub open spec fn cells_in_grid(cells: Seq<Cell>, width: int, height: int) -> bool {
    forall|i: int| 0 <= i < cells.len()
        ==> 0 <= (#[trigger] cells[i]).x && cells[i].x < width
            && 0 <= cells[i].y && cells[i].y < height
}

/// Appending one cell adds exactly its coordinate to the set.
proof fn lemma_cell_set_push(cells: Seq<Cell>, cell: Cell)
    ensures
        cell_set(cells.push(cell)) == cell_set(cells).insert(cell@),
{
    let lhs = cell_set(cells.push(cell));
    let rhs = cell_set(cells).insert(cell@);
    assert forall|p: (int, int)| lhs.contains(p) implies rhs.contains(p) by {
        let i = choose|i: int| 0 <= i < cells.push(cell).len() && #[trigger] cells.push(cell)[i]@ == p;
        if i < cells.len() {
            assert(cells[i]@ == p);
        }
    }
    assert forall|p: (int, int)| rhs.contains(p) implies lhs.contains(p) by {
        if p == cell@ {
            assert(cells.push(cell)[cells.len() as int]@ == p);
        } else {
            let i = choose|i: int| 0 <= i < cells.len() && #[trigger] cells[i]@ == p;
            assert(cells.push(cell)[i]@ == p);
        }
    }
    assert(lhs =~= rhs);
}

/// Whether `cells` already holds the coordinate `(x, y)`.
pub fn cells_contain(cells: &Vec<Cell>, x: i32, y: i32) -> (found: bool)
    ensures
        found == cell_set(cells@).contains((x as int, y as int)),
{
    let mut i: usize = 0;
    while i < cells.len()
        invariant
            0 <= i <= cells@.len(),
            forall|j: int| 0 <= j < i ==> #[trigger] cells@[j]@ != (x as int, y as int),
        decreases cells@.len() - i,
    {
        if cells[i].x == x && cells[i].y == y {
            assert(cells@[i as int]@ == (x as int, y as int));
            return true;
        }
        i = i + 1;
    }
    false
}

/// The wall cells of one loaded level.
pub struct LevelCells {
    pub level: u64,
    pub cells: Vec<Cell>,
}

/// Mapping from a level identifier to the set of its occupied wall cells.
pub struct GridIndex {
    pub levels: Vec<LevelCells>,
}

impl GridIndex {
    /// Each level appears once, and no level's list repeats a cell.
    pub open spec fn wf(&self) -> bool {
        &&& forall|i: int, j: int|
            0 <= i < j < self.levels@.len()
                ==> (#[trigger] self.levels@[i]).level != (#[trigger] self.levels@[j]).level
        &&& forall|i: int, a: int, b: int|
            0 <= i < self.levels@.len()
                && 0 <= a < b < self.levels@[i].cells@.len()
                ==> #[trigger] self.levels@[i].cells@[a]@
                    != #[trigger] self.levels@[i].cells@[b]@
    }

    /// The cell set recorded for `level`; empty when the level is unknown.
    pub open spec fn spec_cells_of(&self, level: u64) -> Set<(int, int)> {
        if exists|i: int|
            0 <= i < self.levels@.len() && (#[trigger] self.levels@[i]).level == level {
            cell_set(
                (self.levels@[choose|i: int|
                    0 <= i < self.levels@.len()
                        && (#[trigger] self.levels@[i]).level == level]).cells@,
            )
        } else {
            Set::empty()
        }
    }

    /// Under `wf`, the set recorded for the level at index `i` is that entry's.
    proof fn lemma_cells_of_at(&self, i: int)
        requires
            self.wf(),
            0 <= i < self.levels@.len(),
        ensures
            self.spec_cells_of(self.levels@[i].level)
                == cell_set(self.levels@[i].cells@),
    {
        let level = self.levels@[i].level;
        assert(exists|k: int|
            0 <= k < self.levels@.len() && (#[trigger] self.levels@[k]).level == level);
        let k = choose|k: int|
            0 <= k < self.levels@.len() && (#[trigger] self.levels@[k]).level == level;
        if k < i {
            assert(self.levels@[k].level != self.levels@[i].level);
        } else if i < k {
            assert(self.levels@[i].level != self.levels@[k].level);
        }
    }

    /// A level that no entry names has the empty set.
    proof fn lemma_cells_of_absent(&self, level: u64)
        requires
            forall|i: int|
                0 <= i < self.levels@.len()
                    ==> (#[trigger] self.levels@[i]).level != level,
        ensures
            self.spec_cells_of(level) == Set::<(int, int)>::empty(),
    {
    }

    pub fn new() -> (index: GridIndex)
        ensures
            index.wf(),
            index.levels@.len() == 0,
    {
        GridIndex { levels: Vec::new() }
    }

    fn find_level(&self, level: u64) -> (found: Option<usize>)
        ensures
            match found {
                Some(i) => i < self.levels@.len() && self.levels@[i as int].level == level,
                None => forall|i: int|
                    0 <= i < self.levels@.len()
                        ==> (#[trigger] self.levels@[i]).level != level,
            },
    {
        let mut i: usize = 0;
        while i < self.levels.len()
            invariant
                0 <= i <= self.levels@.len(),
                forall|j: int| 0 <= j < i ==> (#[trigger] self.levels@[j]).level != level,
            decreases self.levels@.len() - i,
        {
            if self.levels[i].level == level {
                return Some(i);
            }
            i = i + 1;
        }
        None
    }

    /// Record one wall marker for `level`. A repeated cell is a no-op, so
    /// each level's list stays duplicate-free.
    pub fn insert(&mut self, level: u64, cell: Cell)
        requires
            old(self).wf(),
        ensures
            final(self).wf(),
            final(self).spec_cells_of(level)
                == old(self).spec_cells_of(level).insert(cell@),
            forall|other: u64| other != level
                ==> final(self).spec_cells_of(other) == old(self).spec_cells_of(other),
    {
        let found = self.find_level(level);
        match found {
            Some(i) => {
                proof {
                    self.lemma_cells_of_at(i as int);
                }
                if !cells_contain(&self.levels[i].cells, cell.x, cell.y) {
                    self.levels[i].cells.push(cell);
                    proof {
                        let oldl = old(self).levels@;
                        let newl = self.levels@;
                        assert(newl =~= oldl.update(
                            i as int,
                            LevelCells {
                                level,
                                cells: self.levels@[i as int].cells,
                            },
                        ));
                        lemma_cell_set_push(oldl[i as int].cells@, cell);
                        assert(self.wf()) by {
                            assert(forall|a: int| 0 <= a < oldl[i as int].cells@.len()
                                ==> #[trigger] oldl[i as int].cells@[a]@ != cell@);
                        }
                        self.lemma_cells_of_at(i as int);
                        assert forall|other: u64| other != level
                            implies self.spec_cells_of(other) == old(self).spec_cells_of(other) by {
                            assert forall|k: int|
                                0 <= k < oldl.len() && (#[trigger] oldl[k]).level == other
                                implies exists|j: int|
                                    0 <= j < newl.len() && #[trigger] newl[j] == oldl[k] by {
                                assert(newl[k] == oldl[k]);
                            }
                            assert forall|k: int|
                                0 <= k < newl.len() && (#[trigger] newl[k]).level == other
                                implies exists|j: int|
                                    0 <= j < oldl.len() && #[trigger] oldl[j] == newl[k] by {
                                assert(oldl[k] == newl[k]);
                            }
                            Self::lemma_same_levels_same_cells(*old(self), *self, other);
                        }
                    }
                } else {
                    proof {
                        assert(old(self).spec_cells_of(level).insert(cell@)
                            =~= old(self).spec_cells_of(level));
                    }
                }
            },
            None => {
                let mut cells = Vec::new();
                cells.push(cell);
                self.levels.push(LevelCells { level, cells });
                proof {
                    let n = old(self).levels@.len() as int;
                    assert(self.levels@[n].level == level);
                    assert(self.levels@[n].cells@ =~= Seq::empty().push(cell));
                    self.lemma_cells_of_at(n);
                    lemma_cell_set_push(Seq::empty(), cell);
                    assert(cell_set(Seq::<Cell>::empty()) =~= Set::<(int, int)>::empty());
                    old(self).lemma_cells_of_absent(level);
                    assert(self.spec_cells_of(level)
                        =~= old(self).spec_cells_of(level).insert(cell@));
                    assert forall|other: u64| other != level
                        implies self.spec_cells_of(other) == old(self).spec_cells_of(other) by {
                        let oldl = old(self).levels@;
                        let newl = self.levels@;
                        assert forall|k: int|
                            0 <= k < oldl.len() && (#[trigger] oldl[k]).level == other
                            implies exists|j: int|
                                0 <= j < newl.len() && #[trigger] newl[j] == oldl[k] by {
                            assert(newl[k] == oldl[k]);
                        }
                        assert forall|k: int|
                            0 <= k < newl.len() && (#[trigger] newl[k]).level == other
                            implies exists|j: int|
                                0 <= j < oldl.len() && #[trigger] oldl[j] == newl[k] by {
                            assert(k < n);
                            assert(oldl[k] == newl[k]);
                        }
                        Self::lemma_same_levels_same_cells(*old(self), *self, other);
                    }
                }
            },
        }
    }

    /// Two well-formed indexes that record the same entries for `level`
    /// (every entry of one for that level appears identically in the other)
    /// agree on `spec_cells_of(level)`.
    proof fn lemma_same_levels_same_cells(a: GridIndex, b: GridIndex, level: u64)
        requires
            a.wf(),
            b.wf(),
            forall|i: int|
                0 <= i < a.levels@.len() && (#[trigger] a.levels@[i]).level == level
                    ==> exists|j: int|
                        0 <= j < b.levels@.len() && #[trigger] b.levels@[j] == a.levels@[i],
            forall|j: int|
                0 <= j < b.levels@.len() && (#[trigger] b.levels@[j]).level == level
                    ==> exists|i: int|
                        0 <= i < a.levels@.len() && #[trigger] a.levels@[i] == b.levels@[j],
        ensures
            a.spec_cells_of(level) == b.spec_cells_of(level),
    {
        if exists|i: int|
            0 <= i < a.levels@.len() && (#[trigger] a.levels@[i]).level == level {
            let i = choose|i: int|
                0 <= i < a.levels@.len() && (#[trigger] a.levels@[i]).level == level;
            a.lemma_cells_of_at(i);
            let j = choose|j: int|
                0 <= j < b.levels@.len() && #[trigger] b.levels@[j] == a.levels@[i];
            b.lemma_cells_of_at(j);
        } else {
            a.lemma_cells_of_absent(level);
            if exists|j: int|
                0 <= j < b.levels@.len() && (#[trigger] b.levels@[j]).level == level {
                let j = choose|j: int|
                    0 <= j < b.levels@.len() && (#[trigger] b.levels@[j]).level == level;
                let i = choose|i: int|
                    0 <= i < a.levels@.len() && #[trigger] a.levels@[i] == b.levels@[j];
                assert(false);
            }
            b.lemma_cells_of_absent(level);
        }
    }

    /// Drop all cells recorded for `level`, as a level unload does.
    pub fn clear_level(&mut self, level: u64)
        requires
            old(self).wf(),
        ensures
            final(self).wf(),
            final(self).spec_cells_of(level) == Set::<(int, int)>::empty(),
            forall|other: u64| other != level
                ==> final(self).spec_cells_of(other) == old(self).spec_cells_of(other),
    {
        let found = self.find_level(level);
        match found {
            Some(i) => {
                self.levels.remove(i);
                proof {
                    assert forall|k: int|
                        0 <= k < self.levels@.len()
                            implies (#[trigger] self.levels@[k]).level != level by {
                        if k < i as int {
                            assert(self.levels@[k] == old(self).levels@[k]);
                        } else {
                            assert(self.levels@[k] == old(self).levels@[k + 1]);
                        }
                    }
                    self.lemma_cells_of_absent(level);
                    assert(self.wf()) by {
                        assert(forall|k: int| 0 <= k < self.levels@.len()
                            ==> #[trigger] self.levels@[k]
                                == if k < i as int {
                                    old(self).levels@[k]
                                } else {
                                    old(self).levels@[k + 1]
                                });
                    }
                    assert forall|other: u64| other != level
                        implies self.spec_cells_of(other) == old(self).spec_cells_of(other) by {
                        let oldl = old(self).levels@;
                        let newl = self.levels@;
                        assert forall|k: int|
                            0 <= k < oldl.len() && (#[trigger] oldl[k]).level == other
                            implies exists|j: int|
                                0 <= j < newl.len() && #[trigger] newl[j] == oldl[k] by {
                            if k < i as int {
                                assert(newl[k] == oldl[k]);
                            } else {
                                assert(k != i as int);
                                assert(newl[k - 1] == oldl[k]);
                            }
                        }
                        assert forall|k: int|
                            0 <= k < newl.len() && (#[trigger] newl[k]).level == other
                            implies exists|j: int|
                                0 <= j < oldl.len() && #[trigger] oldl[j] == newl[k] by {
                            if k < i as int {
                                assert(oldl[k] == newl[k]);
                            } else {
                                assert(oldl[k + 1] == newl[k]);
                            }
                        }
                        Self::lemma_same_levels_same_cells(*old(self), *self, other);
                    }
                }
            },
            None => {
                proof {
                    self.lemma_cells_of_absent(level);
                }
            },
        }
    }

    /// The cells recorded for `level`, for handing to the consolidator.
    pub fn cells_of(&self, level: u64) -> (cells: Option<&Vec<Cell>>)
        requires
            self.wf(),
        ensures
            match cells {
                Some(v) => cell_set(v@) == self.spec_cells_of(level),
                None => self.spec_cells_of(level) == Set::<(int, int)>::empty(),
            },
    {
        let found = self.find_level(level);
        match found {
            Some(i) => {
                proof {
                    self.lemma_cells_of_at(i as int);
                }
                Some(&self.levels[i].cells)
            },
            None => {
                proof {
                    self.lemma_cells_of_absent(level);
                }
                None
            },
        }
    }
}

} // verus!
