use vstd::prelude::*;
use crate::arena::Handle;
use crate::bindable::{Direction, Team};

verus! {

/// One tile of the battle field.
#[derive(Debug)]
pub struct Tile {
    pub team: Team,
    pub direction: Direction,
    /// Number of spawned entities standing on the tile.
    pub entity_count: usize,
    /// Entities that hold a reservation on the tile.
    pub reservations: Vec<Handle>,
    /// Whether the tile is a hole that walkers fall through.
    pub hole: bool,
}

/// A rectangular grid of tiles, stored row by row.
#[derive(Debug)]
pub struct Field {
    pub cols: usize,
    pub rows: usize,
    pub tiles: Vec<Tile>,
}

/// `b` holds what `a` holds.
pub open spec fn same_tile(a: Tile, b: Tile) -> bool {
    &&& a.team == b.team
    &&& a.direction == b.direction
    &&& a.entity_count == b.entity_count
    &&& a.reservations@ == b.reservations@
    &&& a.hole == b.hole
}

/// `b` holds what `a` holds.
pub open spec fn same_field(a: Field, b: Field) -> bool {
    &&& a.cols == b.cols
    &&& a.rows == b.rows
    &&& a.tiles@.len() == b.tiles@.len()
    &&& forall|i: int| 0 <= i < a.tiles@.len() ==> same_tile(#[trigger] a.tiles@[i], b.tiles@[i])
}

impl Clone for Tile {
    fn clone(&self) -> (r: Tile)
        ensures
            same_tile(*self, r),
    {
        let reservations = self.reservations.clone();
        proof {
            assert(reservations@ =~= self.reservations@);
        }
        Tile { team: self.team, direction: self.direction, entity_count: self.entity_count, reservations, hole: self.hole }
    }
}

impl Clone for Field {
    fn clone(&self) -> (r: Field)
        ensures
            same_field(*self, r),
    {
        Field { cols: self.cols, rows: self.rows, tiles: self.tiles.clone() }
    }
}

/// Largest number of columns or rows of a field.
pub const MAX_SIDE: usize = 0x7fff;

/// Whether `(x, y)` names a tile of a `cols` by `rows` field.
pub open spec fn in_bounds(cols: usize, rows: usize, x: i32, y: i32) -> bool {
    0 <= x < cols && 0 <= y < rows
}

/// Position in row-major order of the tile at `(x, y)`.
pub open spec fn tile_index(cols: usize, x: i32, y: i32) -> int {
    y * cols + x
}

/// The team a fresh field gives column `x` of `cols`: the left half is red,
/// the right half blue.
pub open spec fn column_team(cols: usize, x: int) -> Team {
    if 2 * x < cols {
        Team::Red
    } else {
        Team::Blue
    }
}

/// Whether `(x, y)` lies on the border of a `cols` by `rows` field.
pub open spec fn is_edge(cols: usize, rows: usize, x: i32, y: i32) -> bool {
    x == 0 || y == 0 || x == cols - 1 || y == rows - 1
}

pub open spec fn team_direction(t: Team) -> Direction {
    match t {
        Team::Red => Direction::Right,
        Team::Blue => Direction::Left,
        _ => Direction::Unset,
    }
}

pub proof fn lemma_index_in_range(cols: usize, rows: usize, x: i32, y: i32)
    requires
        in_bounds(cols, rows, x, y),
    ensures
        0 <= tile_index(cols, x, y) < cols * rows,
{
    assert(y * cols + x < (y + 1) * cols) by (nonlinear_arith)
        requires
            0 <= x < cols,
    ;
    assert((y + 1) * cols <= rows * cols) by (nonlinear_arith)
        requires
            0 <= y < rows,
    ;
    assert(0 <= y * cols) by (nonlinear_arith)
        requires
            0 <= y,
    ;
}

impl Field {
    pub open spec fn wf(&self) -> bool {
        &&& self.cols <= MAX_SIDE
        &&& self.rows <= MAX_SIDE
        &&& self.tiles@.len() == self.cols * self.rows
    }

    /// A field of `cols` by `rows` empty tiles.
    pub fn new(cols: usize, rows: usize) -> (r: Field)
        requires
            cols <= MAX_SIDE,
            rows <= MAX_SIDE,
        ensures
            r.wf(),
            r.cols == cols && r.rows == rows,
            forall|i: int| 0 <= i < r.tiles@.len() ==> (#[trigger] r.tiles@[i]).entity_count == 0,
            forall|i: int|
                0 <= i < r.tiles@.len() ==> (#[trigger] r.tiles@[i]).reservations@.len() == 0,
            forall|x: i32, y: i32|
                in_bounds(cols, rows, x, y) ==> #[trigger] r.tiles@[tile_index(cols, x, y)].team
                    == column_team(cols, x as int),
            forall|x: i32, y: i32|
                in_bounds(cols, rows, x, y) ==> #[trigger] r.tiles@[tile_index(
                    cols,
                    x,
                    y,
                )].direction == team_direction(column_team(cols, x as int)),
    {
        let mut tiles: Vec<Tile> = Vec::new();
        let mut y: usize = 0;
        assert(0 * cols == 0) by (nonlinear_arith);
        while y < rows
            invariant
                y <= rows <= MAX_SIDE,
                cols <= MAX_SIDE,
                tiles@.len() == y * cols,
                forall|i: int| 0 <= i < tiles@.len() ==> (#[trigger] tiles@[i]).entity_count == 0,
                forall|i: int|
                    0 <= i < tiles@.len() ==> (#[trigger] tiles@[i]).reservations@.len() == 0,
                forall|i: int|
                    0 <= i < tiles@.len() ==> (#[trigger] tiles@[i]).team == column_team(
                        cols,
                        i % (cols as int),
                    ) && tiles@[i].direction == team_direction(column_team(cols, i % (cols as int))),
            decreases rows - y,
        {
            let mut x: usize = 0;
            assert((y + 1) * cols <= MAX_SIDE * MAX_SIDE) by (nonlinear_arith)
                requires
                    y < rows <= MAX_SIDE,
                    cols <= MAX_SIDE,
            ;
            while x < cols
                invariant
                    x <= cols <= MAX_SIDE,
                    y < rows <= MAX_SIDE,
                    (y + 1) * cols <= MAX_SIDE * MAX_SIDE,
                    tiles@.len() == y * cols + x,
                    forall|i: int|
                        0 <= i < tiles@.len() ==> (#[trigger] tiles@[i]).entity_count == 0,
                    forall|i: int|
                        0 <= i < tiles@.len() ==> (#[trigger] tiles@[i]).reservations@.len() == 0,
                    forall|i: int|
                        0 <= i < tiles@.len() ==> (#[trigger] tiles@[i]).team == column_team(
                            cols,
                            i % (cols as int),
                        ) && tiles@[i].direction == team_direction(
                            column_team(cols, i % (cols as int)),
                        ),
                decreases cols - x,
            {
                let team = if 2 * x < cols {
                    Team::Red
                } else {
                    Team::Blue
                };
                let direction = if 2 * x < cols {
                    Direction::Right
                } else {
                    Direction::Left
                };
                proof {
                    assert((y * cols + x) % (cols as int) == x) by (nonlinear_arith)
                        requires
                            x < cols,
                    ;
                }
                tiles.push(Tile { team, direction, entity_count: 0, reservations: Vec::new(), hole: false });
                x += 1;
            }
            assert(y * cols + cols == (y + 1) * cols) by (nonlinear_arith);
            y += 1;
        }
        proof {
            assert(tiles@.len() == cols * rows) by (nonlinear_arith)
                requires
                    tiles@.len() == y * cols,
                    y == rows,
            ;
            assert forall|x: i32, y: i32| in_bounds(cols, rows, x, y) implies #[trigger] tiles@[tile_index(
                cols,
                x,
                y,
            )].team == column_team(cols, x as int) && tiles@[tile_index(cols, x, y)].direction
                == team_direction(column_team(cols, x as int)) by {
                lemma_index_in_range(cols, rows, x, y);
                assert((y * cols + x) % (cols as int) == x) by (nonlinear_arith)
                    requires
                        0 <= x < cols,
                        0 <= y,
                ;
            }
        }
        Field { cols, rows, tiles }
    }

    /// Counts one more entity on tile `i`.
    pub fn add_occupant(&mut self, i: usize)
        requires
            i < old(self).tiles@.len(),
            old(self).tiles@[i as int].entity_count < usize::MAX,
        ensures
            final(self).cols == old(self).cols && final(self).rows == old(self).rows,
            final(self).tiles@ == old(self).tiles@.update(
                i as int,
                Tile { entity_count: (old(self).tiles@[i as int].entity_count + 1) as usize, ..old(self).tiles@[i as int] },
            ),
    {
        let mut tile = Tile { team: Team::Other, direction: Direction::Unset, entity_count: 0, reservations: Vec::new(), hole: false };
        self.tiles.set_and_swap(i, &mut tile);
        tile.entity_count = tile.entity_count + 1;
        self.tiles.set(i, tile);
    }

    /// Counts one entity less on tile `i`.
    pub fn remove_occupant(&mut self, i: usize)
        requires
            i < old(self).tiles@.len(),
            old(self).tiles@[i as int].entity_count > 0,
        ensures
            final(self).cols == old(self).cols && final(self).rows == old(self).rows,
            final(self).tiles@ == old(self).tiles@.update(
                i as int,
                Tile { entity_count: (old(self).tiles@[i as int].entity_count - 1) as usize, ..old(self).tiles@[i as int] },
            ),
    {
        let mut tile = Tile { team: Team::Other, direction: Direction::Unset, entity_count: 0, reservations: Vec::new(), hole: false };
        self.tiles.set_and_swap(i, &mut tile);
        tile.entity_count = tile.entity_count - 1;
        self.tiles.set(i, tile);
    }

    /// Reserves tile `i` for `h`, unless `h` already holds a reservation there.
    pub fn reserve_for(&mut self, i: usize, h: Handle)
        requires
            i < old(self).tiles@.len(),
        ensures
            final(self).cols == old(self).cols && final(self).rows == old(self).rows,
            final(self).tiles@.len() == old(self).tiles@.len(),
            forall|j: int| 0 <= j < old(self).tiles@.len() && j != i ==> #[trigger] final(self).tiles@[j] == old(self).tiles@[j],
            final(self).tiles@[i as int].team == old(self).tiles@[i as int].team,
            final(self).tiles@[i as int].direction == old(self).tiles@[i as int].direction,
            final(self).tiles@[i as int].entity_count == old(self).tiles@[i as int].entity_count,
            final(self).tiles@[i as int].hole == old(self).tiles@[i as int].hole,
            final(self).tiles@[i as int].reservations@ == if old(self).tiles@[i as int].reservations@.contains(h) {
                old(self).tiles@[i as int].reservations@
            } else {
                old(self).tiles@[i as int].reservations@.push(h)
            },
    {
        let mut tile = Tile { team: Team::Other, direction: Direction::Unset, entity_count: 0, reservations: Vec::new(), hole: false };
        self.tiles.set_and_swap(i, &mut tile);
        let mut k: usize = 0;
        while k < tile.reservations.len() && tile.reservations[k] != h
            invariant
                0 <= k <= tile.reservations@.len(),
                forall|j: int| 0 <= j < k ==> tile.reservations@[j] != h,
            decreases tile.reservations@.len() - k,
        {
            k += 1;
        }
        if k == tile.reservations.len() {
            tile.reservations.push(h);
        } else {
            proof {
                assert(tile.reservations@[k as int] == h);
            }
        }
        self.tiles.set(i, tile);
    }

    /// Drops every reservation of `h` on tile `i`.
    pub fn remove_reservation_for(&mut self, i: usize, h: Handle)
        requires
            i < old(self).tiles@.len(),
        ensures
            final(self).cols == old(self).cols && final(self).rows == old(self).rows,
            final(self).tiles@.len() == old(self).tiles@.len(),
            forall|j: int| 0 <= j < old(self).tiles@.len() && j != i ==> #[trigger] final(self).tiles@[j] == old(self).tiles@[j],
            final(self).tiles@[i as int].team == old(self).tiles@[i as int].team,
            final(self).tiles@[i as int].direction == old(self).tiles@[i as int].direction,
            final(self).tiles@[i as int].entity_count == old(self).tiles@[i as int].entity_count,
            final(self).tiles@[i as int].hole == old(self).tiles@[i as int].hole,
            !final(self).tiles@[i as int].reservations@.contains(h),
            forall|g: Handle| g != h ==> (#[trigger] final(self).tiles@[i as int].reservations@.contains(g)
                <==> old(self).tiles@[i as int].reservations@.contains(g)),
    {
        let mut tile = Tile { team: Team::Other, direction: Direction::Unset, entity_count: 0, reservations: Vec::new(), hole: false };
        self.tiles.set_and_swap(i, &mut tile);
        let mut kept: Vec<Handle> = Vec::new();
        let mut k: usize = 0;
        while k < tile.reservations.len()
            invariant
                0 <= k <= tile.reservations@.len(),
                !kept@.contains(h),
                forall|g: Handle| g != h ==> (#[trigger] kept@.contains(g) <==> tile.reservations@.take(k as int).contains(g)),
            decreases tile.reservations@.len() - k,
        {
            let r = tile.reservations[k];
            let ghost before = kept@;
            if r != h {
                kept.push(r);
            }
            proof {
                let t = tile.reservations@;
                assert(t.take(k as int + 1) =~= t.take(k as int).push(r));
                assert forall|g: Handle| g != h implies (#[trigger] kept@.contains(g) <==> t.take(k as int + 1).contains(g)) by {
                    if kept@.contains(g) && !before.contains(g) {
                        assert(kept@.last() == g) by {
                            let j = choose|j: int| 0 <= j < kept@.len() && kept@[j] == g;
                            if j < before.len() {
                                assert(before[j] == g);
                            }
                        }
                        assert(t.take(k as int + 1)[k as int] == g);
                    }
                    if before.contains(g) {
                        let j = choose|j: int| 0 <= j < before.len() && before[j] == g;
                        assert(kept@[j] == g);
                    }
                    if t.take(k as int + 1).contains(g) && !t.take(k as int).contains(g) {
                        let j = choose|j: int| 0 <= j < k + 1 && #[trigger] t.take(k as int + 1)[j] == g;
                        if j < k {
                            assert(t.take(k as int)[j] == g);
                        }
                        assert(kept@.last() == g);
                    }
                    if t.take(k as int).contains(g) {
                        let j = choose|j: int| 0 <= j < k && #[trigger] t.take(k as int)[j] == g;
                        assert(t.take(k as int + 1)[j] == g);
                    }
                }
                if !before.contains(h) && kept@.contains(h) {
                    let j = choose|j: int| 0 <= j < kept@.len() && kept@[j] == h;
                    if j < before.len() {
                        assert(before[j] == h);
                    }
                }
            }
            k += 1;
        }
        proof {
            assert(tile.reservations@.take(tile.reservations@.len() as int) =~= tile.reservations@);
        }
        tile.reservations = kept;
        self.tiles.set(i, tile);
    }

    /// Whether `(x, y)` lies on the border of the field.
    pub fn is_edge(&self, x: i32, y: i32) -> (r: bool)
        requires
            self.wf(),
        ensures
            r == is_edge(self.cols, self.rows, x, y),
    {
        let cols = self.cols as i64;
        let rows = self.rows as i64;
        x == 0 || y == 0 || x as i64 == cols - 1 || y as i64 == rows - 1
    }

    /// Position of the tile at `(x, y)`, if there is one.
    pub fn tile_at(&self, x: i32, y: i32) -> (r: Option<usize>)
        requires
            self.wf(),
        ensures
            r.is_some() == in_bounds(self.cols, self.rows, x, y),
            r.is_some() ==> r.unwrap() == tile_index(self.cols, x, y),
            r.is_some() ==> r.unwrap() < self.tiles@.len(),
    {
        if 0 <= x && (x as usize) < self.cols && 0 <= y && (y as usize) < self.rows {
            proof {
                lemma_index_in_range(self.cols, self.rows, x, y);
                assert(self.cols * self.rows <= MAX_SIDE * MAX_SIDE) by (nonlinear_arith)
                    requires
                        self.cols <= MAX_SIDE,
                        self.rows <= MAX_SIDE,
                ;
                assert((y as usize) * self.cols <= tile_index(self.cols, x, y));
            }
            Some((y as usize) * self.cols + (x as usize))
        } else {
            None
        }
    }
}

} // verus!
