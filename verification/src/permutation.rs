//! Copy-constraint cycle construction: turning the accumulated wiring into
//! the closed permutation cycles the proof system's permutation argument
//! consumes.

use vstd::prelude::*;

use crate::error::{Error, ErrorKind};
use crate::witness::CompiledCircuit;
use crate::writer::{AnnotatedCell, Cell, CircuitWriter, NUM_REGISTERS};

verus! {

/// The back-reference a wire table holds at a position (itself when the
/// position is out of range).
pub open spec fn table_at(table: Seq<Vec<Cell>>, c: Cell) -> Cell {
    if c.row < table.len() && c.col < table[c.row as int]@.len() {
        table[c.row as int]@[c.col as int]
    } else {
        c
    }
}

/// The position reached after following `k` back-references from `c`.
pub open spec fn iter_back(table: Seq<Vec<Cell>>, c: Cell, k: nat) -> Cell
    decreases k,
{
    if k == 0 {
        c
    } else {
        table_at(table, iter_back(table, c, (k - 1) as nat))
    }
}

/// All cells of the list are pairwise distinct.
pub open spec fn cells_distinct(cells: Seq<AnnotatedCell>) -> bool {
    forall|k1: int, k2: int|
        0 <= k1 < k2 < cells.len() ==> (#[trigger] cells[k1]).cell != (#[trigger] cells[k2]).cell
}

/// The wire table realizes the list as one closed cycle: every position
/// points back to its predecessor, and the first points back to the last.
pub open spec fn cycle_closed(table: Seq<Vec<Cell>>, cells: Seq<AnnotatedCell>) -> bool {
    &&& forall|k: int|
        1 <= k < cells.len() ==> table_at(table, (#[trigger] cells[k]).cell) == cells[k - 1].cell
    &&& table_at(table, cells[0].cell) == cells[cells.len() - 1].cell
}

/// Position of the cycle member reached after `k` backward steps from
/// member `i`.
pub open spec fn back_index(i: int, k: int, n: int) -> int {
    if i - k >= 0 {
        i - k
    } else {
        i - k + n
    }
}

/// Following the closed cycle backward lands on the expected member.
pub proof fn lemma_cycle_steps(table: Seq<Vec<Cell>>, cells: Seq<AnnotatedCell>, i: int, k: int)
    requires
        cells.len() >= 2,
        cycle_closed(table, cells),
        0 <= i < cells.len(),
        0 <= k <= cells.len(),
    ensures
        iter_back(table, cells[i].cell, k as nat) == cells[back_index(i, k, cells.len() as int)].cell,
    decreases k,
{
    if k > 0 {
        lemma_cycle_steps(table, cells, i, k - 1);
        let prev = back_index(i, k - 1, cells.len() as int);
        if prev >= 1 {
            assert(table_at(table, cells[prev].cell) == cells[prev - 1].cell);
        } else {
            assert(table_at(table, cells[0].cell) == cells[cells.len() - 1].cell);
        }
    }
}

/// The closed cycle produced for a wired class has length equal to the
/// number of distinct positions declared equal: from any starting member,
/// following the back-references returns to the start after exactly as many
/// steps as the class has members, never earlier, and every intermediate
/// position is itself a member of the class.
pub proof fn lemma_cycle_length(table: Seq<Vec<Cell>>, cells: Seq<AnnotatedCell>, i: int)
    requires
        cells.len() >= 2,
        cells_distinct(cells),
        cycle_closed(table, cells),
        0 <= i < cells.len(),
    ensures
        iter_back(table, cells[i].cell, cells.len() as nat) == cells[i].cell,
        forall|k: int|
            0 < k < cells.len() ==> #[trigger] iter_back(table, cells[i].cell, k as nat) != cells[i].cell,
        forall|k: int|
            0 <= k < cells.len() ==> exists|j: int|
                0 <= j < cells.len() && #[trigger] iter_back(table, cells[i].cell, k as nat) == (
                #[trigger] cells[j]).cell,
{
    let n = cells.len() as int;
    lemma_cycle_steps(table, cells, i, n);
    assert(back_index(i, n, n) == i);
    assert forall|k: int|
        0 < k < n implies #[trigger] iter_back(table, cells[i].cell, k as nat) != cells[i].cell by {
        lemma_cycle_steps(table, cells, i, k);
        let j = back_index(i, k, n);
        assert(0 <= j < n && j != i);
        if j < i {
            assert(cells[j].cell != cells[i].cell);
        } else {
            assert(cells[i].cell != cells[j].cell);
        }
    }
    assert forall|k: int| 0 <= k < n implies exists|j: int|
        0 <= j < n && #[trigger] iter_back(table, cells[i].cell, k as nat) == (
        #[trigger] cells[j]).cell by {
        lemma_cycle_steps(table, cells, i, k);
        let j = back_index(i, k, n);
        assert(iter_back(table, cells[i].cell, k as nat) == cells[j].cell);
    }
}

/// Closes one wired class into a cycle in the wire table: each of the
/// class's positions is pointed at its predecessor, and the first at the
/// last.  A class with fewer than two members is a logic error in the
/// caller, reported as a typed error rather than a crash.
pub fn close_cycle(table: &mut Vec<Vec<Cell>>, cells: &Vec<AnnotatedCell>) -> (r: Result<
    (),
    Error,
>)
    requires
        forall|k: int|
            0 <= k < cells@.len() ==> (#[trigger] cells@[k]).cell.row < old(table)@.len()
                && cells@[k].cell.col < old(table)@[cells@[k].cell.row as int]@.len(),
        cells_distinct(cells@),
    ensures
        r is Ok <==> cells@.len() >= 2,
        final(table)@.len() == old(table)@.len(),
        forall|r2: int|
            0 <= r2 < old(table)@.len() ==> (#[trigger] final(table)@[r2])@.len() == old(
                table,
            )@[r2]@.len(),
        r is Err ==> final(table)@ == old(table)@ && (r matches Err(e) && e.kind
            == ErrorKind::InvalidWiring),
        r is Ok ==> cycle_closed(final(table)@, cells@),
        forall|r2: int, c2: int|
            0 <= r2 < old(table)@.len() && 0 <= c2 < old(table)@[r2]@.len() && (forall|k: int|
                0 <= k < cells@.len() ==> (#[trigger] cells@[k]).cell != (Cell {
                    row: r2 as usize,
                    col: c2 as usize,
                })) ==> #[trigger] final(table)@[r2]@[c2] == old(table)@[r2]@[c2],
    {
        let n = cells.len();
        if n < 2 {
            return Err(Error::new(ErrorKind::InvalidWiring, crate::ast::Span::new(0, 0)));
        }
        let ghost table0 = table@;
        let mut prev: Cell = cells[0].cell;
        let mut k: usize = 1;
        while k < n
            invariant
                n == cells@.len(),
                n >= 2,
                1 <= k <= n,
                cells_distinct(cells@),
                forall|t: int|
                    0 <= t < cells@.len() ==> (#[trigger] cells@[t]).cell.row < table0.len()
                        && cells@[t].cell.col < table0[cells@[t].cell.row as int]@.len(),
                table@.len() == table0.len(),
                forall|r2: int|
                    0 <= r2 < table0.len() ==> (#[trigger] table@[r2])@.len() == table0[r2]@.len(),
                prev == cells@[k - 1].cell,
                forall|t: int|
                    1 <= t < k ==> table_at(table@, (#[trigger] cells@[t]).cell) == cells@[t
                        - 1].cell,
                forall|r2: int, c2: int|
                    0 <= r2 < table0.len() && 0 <= c2 < table0[r2]@.len() && (forall|t: int|
                        1 <= t < k ==> (#[trigger] cells@[t]).cell != (Cell {
                            row: r2 as usize,
                            col: c2 as usize,
                        })) ==> #[trigger] table@[r2]@[c2] == table0[r2]@[c2],
            decreases n - k,
        {
            let cell = cells[k].cell;
            let ghost before = table@;
            let row = &mut table[cell.row];
            row[cell.col] = prev;
            proof {
                assert(table@[cell.row as int]@[cell.col as int] == prev);
                assert forall|t: int|
                    1 <= t < k + 1 implies table_at(table@, (#[trigger] cells@[t]).cell)
                    == cells@[t - 1].cell by {
                    if t < k {
                        assert(cells@[t].cell != cell);
                        assert(table@[cells@[t].cell.row as int]@[cells@[t].cell.col as int]
                            == before[cells@[t].cell.row as int]@[cells@[t].cell.col as int]);
                    }
                }
            }
            prev = cell;
            k += 1;
        }
        let first = cells[0].cell;
        let ghost before_last = table@;
        let row = &mut table[first.row];
        row[first.col] = prev;
        proof {
            assert(table@[first.row as int]@[first.col as int] == prev);
            assert forall|t: int|
                1 <= t < n implies table_at(table@, (#[trigger] cells@[t]).cell) == cells@[t
                - 1].cell by {
                assert(cells@[t].cell != first);
                assert(table@[cells@[t].cell.row as int]@[cells@[t].cell.col as int]
                    == before_last[cells@[t].cell.row as int]@[cells@[t].cell.col as int]);
            }
        }
        Ok(())
    }

/// Whether the position belongs to some wired class (a wiring list of two
/// or more members) among the first `bound` lists.
pub open spec fn in_wired_class(w: CircuitWriter, bound: int, pos: Cell) -> bool {
    exists|v: int, k: int|
        0 <= v < bound && w.wiring@[v]@.len() >= 2 && 0 <= k < w.wiring@[v]@.len() && (
        #[trigger] w.wiring@[v]@[k]).cell == pos
}

impl CompiledCircuit {
    /// Translates the accumulated wiring into the wire table the proof
    /// system's permutation argument consumes: every wired class forms one
    /// closed cycle, and exactly the wired positions are overwritten — every
    /// position in no class of two or more members keeps its self-pointer.
    pub fn compute_permutation(&self) -> (r: Result<Vec<Vec<Cell>>, Error>)
        requires
            self.wf(),
        ensures
            r is Ok,
            r matches Ok(t) ==> {
                &&& t@.len() == self.circuit.rows_of_vars@.len()
                &&& forall|r2: int| 0 <= r2 < t@.len() ==> (#[trigger] t@[r2])@.len()
                    == NUM_REGISTERS
                &&& forall|v: int|
                    0 <= v < self.circuit.wiring@.len() && (#[trigger] self.circuit.wiring@[v])@.len()
                        >= 2 ==> cycle_closed(t@, self.circuit.wiring@[v]@)
                &&& forall|r2: int, c2: int|
                    0 <= r2 < t@.len() && 0 <= c2 < NUM_REGISTERS && !in_wired_class(
                        self.circuit,
                        self.circuit.wiring@.len() as int,
                        (Cell { row: r2 as usize, col: c2 as usize }),
                    ) ==> #[trigger] t@[r2]@[c2] == (Cell { row: r2 as usize, col: c2 as usize })
            },
    {
        let num_rows = self.circuit.rows_of_vars.len();
        let mut table: Vec<Vec<Cell>> = Vec::new();
        let mut r: usize = 0;
        while r < num_rows
            invariant
                r <= num_rows,
                table@.len() == r,
                forall|r2: int| 0 <= r2 < r ==> (#[trigger] table@[r2])@.len() == NUM_REGISTERS,
                forall|r2: int, c2: int|
                    0 <= r2 < r && 0 <= c2 < NUM_REGISTERS ==> #[trigger] table@[r2]@[c2] == (Cell {
                        row: r2 as usize,
                        col: c2 as usize,
                    }),
            decreases num_rows - r,
        {
            let mut row: Vec<Cell> = Vec::new();
            let mut c: usize = 0;
            while c < NUM_REGISTERS
                invariant
                    c <= NUM_REGISTERS,
                    row@.len() == c,
                    forall|c2: int| 0 <= c2 < c ==> #[trigger] row@[c2] == (Cell {
                        row: r as usize,
                        col: c2 as usize,
                    }),
                decreases NUM_REGISTERS - c,
            {
                row.push(Cell { row: r, col: c });
                c += 1;
            }
            table.push(row);
            r += 1;
        }
        let nv = self.circuit.wiring.len();
        let mut v: usize = 0;
        while v < nv
            invariant
                self.wf(),
                nv == self.circuit.wiring@.len(),
                num_rows == self.circuit.rows_of_vars@.len(),
                v <= nv,
                table@.len() == num_rows,
                forall|r2: int| 0 <= r2 < table@.len() ==> (#[trigger] table@[r2])@.len()
                    == NUM_REGISTERS,
                forall|v2: int|
                    0 <= v2 < v && (#[trigger] self.circuit.wiring@[v2])@.len() >= 2
                        ==> cycle_closed(table@, self.circuit.wiring@[v2]@),
                forall|r2: int, c2: int|
                    0 <= r2 < table@.len() && 0 <= c2 < NUM_REGISTERS && !in_wired_class(
                        self.circuit,
                        v as int,
                        (Cell { row: r2 as usize, col: c2 as usize }),
                    ) ==> #[trigger] table@[r2]@[c2] == (Cell { row: r2 as usize, col: c2 as usize }),
            decreases nv - v,
        {
            let list_len = self.circuit.wiring[v].len();
            if list_len >= 2 {
                let ghost before = table@;
                proof {
                    assert(self.circuit.wiring_entry_wf(v as int));
                    let cells = self.circuit.wiring@[v as int]@;
                    assert forall|k1: int, k2: int|
                        0 <= k1 < k2 < cells.len() implies (#[trigger] cells[k1]).cell != (
                    #[trigger] cells[k2]).cell by {
                        assert(crate::writer::cell_lt(cells[k1].cell, cells[k2].cell));
                    }
                    assert forall|k: int|
                        0 <= k < cells.len() implies (#[trigger] cells[k]).cell.row < table@.len()
                        && cells[k].cell.col < table@[cells[k].cell.row as int]@.len() by {
                        assert(self.circuit.cell_for(cells[k].cell, v as int));
                        assert(self.circuit.rows_of_vars@[cells[k].cell.row as int]@.len()
                            <= NUM_REGISTERS);
                    }
                }
                let res = close_cycle(&mut table, &self.circuit.wiring[v]);
                proof {
                    assert(res is Ok);
                    assert forall|r2: int, c2: int|
                        0 <= r2 < table@.len() && 0 <= c2 < NUM_REGISTERS && !in_wired_class(
                            self.circuit,
                            v as int + 1,
                            (Cell { row: r2 as usize, col: c2 as usize }),
                        ) implies #[trigger] table@[r2]@[c2] == (Cell {
                        row: r2 as usize,
                        col: c2 as usize,
                    }) by {
                        let pos = Cell { row: r2 as usize, col: c2 as usize };
                        let cells = self.circuit.wiring@[v as int]@;
                        assert forall|t: int|
                            0 <= t < cells.len() implies (#[trigger] cells[t]).cell != pos by {
                            if cells[t].cell == pos {
                                assert(in_wired_class(self.circuit, v as int + 1, pos));
                            }
                        }
                        assert(table@[r2]@[c2] == before[r2]@[c2]);
                        assert(!in_wired_class(self.circuit, v as int, pos));
                    }
                    assert forall|v2: int|
                        0 <= v2 < v && (#[trigger] self.circuit.wiring@[v2])@.len()
                            >= 2 implies cycle_closed(table@, self.circuit.wiring@[v2]@) by {
                        let cells2 = self.circuit.wiring@[v2]@;
                        let cells = self.circuit.wiring@[v as int]@;
                        assert(self.circuit.wiring_entry_wf(v2));
                        assert(self.circuit.wiring_entry_wf(v as int));
                        assert forall|k: int|
                            0 <= k < cells2.len() implies table_at(
                            table@,
                            (#[trigger] cells2[k]).cell,
                        ) == table_at(before, cells2[k].cell) by {
                            let p = cells2[k].cell;
                            assert(self.circuit.cell_for(p, v2));
                            assert forall|t: int|
                                0 <= t < cells.len() implies (#[trigger] cells[t]).cell != (Cell {
                                    row: p.row as usize,
                                    col: p.col as usize,
                                }) by {
                                assert(self.circuit.cell_for(cells[t].cell, v as int));
                                if cells[t].cell == p {
                                    assert(false);
                                }
                            }
                            assert(self.circuit.rows_of_vars@[p.row as int]@.len()
                                <= NUM_REGISTERS);
                            assert(table@[p.row as int]@[p.col as int] == before[p.row as int]@[
                            p.col as int]);
                        }
                    }
                }
            } else {
                proof {
                    assert forall|r2: int, c2: int|
                        0 <= r2 < table@.len() && 0 <= c2 < NUM_REGISTERS && !in_wired_class(
                            self.circuit,
                            v as int + 1,
                            (Cell { row: r2 as usize, col: c2 as usize }),
                        ) implies #[trigger] table@[r2]@[c2] == (Cell {
                        row: r2 as usize,
                        col: c2 as usize,
                    }) by {
                        let pos = Cell { row: r2 as usize, col: c2 as usize };
                        assert(!in_wired_class(self.circuit, v as int, pos));
                    }
                }
            }
            v += 1;
        }
        Ok(table)
    }
}

} // verus!
