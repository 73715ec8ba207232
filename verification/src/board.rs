//! The square tile grid, its construction, and the invariants that every
//! reachable board satisfies.
use vstd::prelude::*;
use vstd::arithmetic::div_mod::lemma_fundamental_div_mod;
use vstd::arithmetic::div_mod::lemma_fundamental_div_mod_converse;
use vstd::arithmetic::div_mod::lemma_div_is_ordered;
use crate::tile::{Position, Tile, TileKind};

verus! {

/// Upper bound on the side length; keeps every index and coordinate well
/// inside the machine integer ranges.
pub const MAX_SIDE: usize = 1000;

/// Column of the cell stored at index `i` of a board with the given side.
pub open spec fn col_of(side: int, i: int) -> int {
    i % side
}

/// Row of the cell stored at index `i` of a board with the given side.
pub open spec fn row_of(side: int, i: int) -> int {
    i / side
}

/// Storage index of the cell at column `x`, row `y`.
pub open spec fn index_of(side: int, x: int, y: int) -> int {
    y * side + x
}

/// Whether the cell at index `i` lies on the outermost ring of the grid.
pub open spec fn on_perimeter(side: int, i: int) -> bool {
    ||| col_of(side, i) == 0
    ||| col_of(side, i) == side - 1
    ||| row_of(side, i) == 0
    ||| row_of(side, i) == side - 1
}

/// Structural well-formedness of a tile sequence: one tile per grid cell,
/// each holding the coordinate its index encodes.
pub open spec fn tiles_wf(side: int, tiles: Seq<Tile>) -> bool {
    &&& 4 <= side <= MAX_SIDE
    &&& tiles.len() == side * side
    &&& forall|i: int|
        0 <= i < tiles.len() ==> (#[trigger] tiles[i]).pos == (Position {
            x: col_of(side, i) as i32,
            y: row_of(side, i) as i32,
        })
}

/// Every perimeter cell is an obstacle.
pub open spec fn perimeter_obstacles(side: int, tiles: Seq<Tile>) -> bool {
    forall|i: int|
        0 <= i < tiles.len() && on_perimeter(side, i) ==> (#[trigger] tiles[i]).kind
            == TileKind::Obstacle
}

/// The tile at index `i` holds the snake segment with body order `k`.
pub open spec fn seg_at(tiles: Seq<Tile>, i: int, k: u32) -> bool {
    &&& 0 <= i < tiles.len()
    &&& tiles[i].kind == TileKind::Snake(k)
}

/// Some tile holds the snake segment with body order `k`.
pub open spec fn has_seg(tiles: Seq<Tile>, k: u32) -> bool {
    exists|i: int| seg_at(tiles, i, k)
}

/// The snake body is coherent: the segment indices present are exactly
/// `0..=head`, and each of them sits on exactly one tile.
pub open spec fn segments_ok(tiles: Seq<Tile>, head: u32) -> bool {
    &&& forall|k: u32| k <= head ==> #[trigger] has_seg(tiles, k)
    &&& forall|i: int, k: u32| #[trigger] seg_at(tiles, i, k) ==> k <= head
    &&& forall|i: int, j: int, k: u32|
        #[trigger] seg_at(tiles, i, k) && #[trigger] seg_at(tiles, j, k) ==> i == j
}

/// At most one tile on the board is food.
pub open spec fn food_at_most_one(tiles: Seq<Tile>) -> bool {
    forall|i: int, j: int|
        0 <= i < tiles.len() && 0 <= j < tiles.len() && (#[trigger] tiles[i]).kind is Food && (
        #[trigger] tiles[j]).kind is Food ==> i == j
}

/// Some tile on the board is food.
pub open spec fn food_exists(tiles: Seq<Tile>) -> bool {
    exists|i: int| 0 <= i < tiles.len() && (#[trigger] tiles[i]).kind is Food
}

/// Column of the tail of a freshly built snake: the run of `len` segments is
/// centered on the middle row, its leftmost cell at `side/2 - len/2`.
pub open spec fn start_col(side: int, len: int) -> int {
    side / 2 - len / 2
}

/// What `build` is allowed to be asked for: an even side within range, and a
/// snake that fits strictly inside the obstacle ring.
pub open spec fn build_pre(side: int, len: int) -> bool {
    &&& 4 <= side <= MAX_SIDE
    &&& side % 2 == 0
    &&& 1 <= len
    &&& len < side - 2
}

/// Kind of the cell at index `i` on a freshly built board: obstacles on the
/// perimeter, a horizontal snake centered on the middle row, all else empty.
pub open spec fn initial_kind(side: int, len: int, i: int) -> TileKind {
    let x = col_of(side, i);
    let y = row_of(side, i);
    if on_perimeter(side, i) {
        TileKind::Obstacle
    } else if y == side / 2 && start_col(side, len) <= x < start_col(side, len) + len {
        TileKind::Snake((x - start_col(side, len)) as u32)
    } else {
        TileKind::Empty
    }
}

/// The tile sequence of a freshly built board.
pub open spec fn fresh_tiles(side: int, len: int, tiles: Seq<Tile>) -> bool {
    &&& tiles_wf(side, tiles)
    &&& forall|i: int|
        0 <= i < tiles.len() ==> (#[trigger] tiles[i]).kind == initial_kind(side, len, i)
}

/// A fitting snake run sits strictly inside the obstacle ring.
pub proof fn lemma_start_col_bounds(side: int, len: int)
    requires
        build_pre(side, len),
    ensures
        2 <= start_col(side, len),
        start_col(side, len) + len <= side - 1,
        2 <= side / 2 <= side - 2,
{
    lemma_fundamental_div_mod(side, 2);
    lemma_fundamental_div_mod(len, 2);
    let q = side / 2;
    let d = len / 2;
    let r = len % 2;
    assert(side == 2 * q);
    assert(len == 2 * d + r);
    assert(0 <= r < 2);
    assert(2 * d + r <= 2 * q - 3);
}

/// A freshly built board satisfies every board invariant: obstacles all
/// around, a coherent snake body with head index `len - 1`, and no food.
pub proof fn lemma_fresh_board_ok(side: int, len: int, tiles: Seq<Tile>)
    requires
        build_pre(side, len),
        fresh_tiles(side, len, tiles),
    ensures
        perimeter_obstacles(side, tiles),
        segments_ok(tiles, (len - 1) as u32),
        !food_exists(tiles),
        food_at_most_one(tiles),
{
    lemma_start_col_bounds(side, len);
    let start = start_col(side, len);
    let mid = side / 2;
    let head = (len - 1) as u32;
    assert forall|k: u32| k <= head implies #[trigger] has_seg(tiles, k) by {
        let i = mid * side + (start + k);
        assert(i < side * side) by (nonlinear_arith)
            requires
                0 <= mid < side,
                0 <= start + k < side,
                i == mid * side + (start + k),
        ;
        lemma_fundamental_div_mod_converse(i, side, mid, start + k);
        assert(tiles[i].kind == initial_kind(side, len, i));
        assert(seg_at(tiles, i, k));
    }
    assert forall|i: int, k: u32| #[trigger] seg_at(tiles, i, k) implies k <= head by {
        assert(tiles[i].kind == initial_kind(side, len, i));
    }
    assert forall|i: int, j: int, k: u32|
        #[trigger] seg_at(tiles, i, k) && #[trigger] seg_at(tiles, j, k) implies i == j by {
        assert(tiles[i].kind == initial_kind(side, len, i));
        assert(tiles[j].kind == initial_kind(side, len, j));
        lemma_fundamental_div_mod(i, side);
        lemma_fundamental_div_mod(j, side);
    }
    assert forall|i: int| 0 <= i < tiles.len() implies !((#[trigger] tiles[i]).kind is Food) by {
        assert(tiles[i].kind == initial_kind(side, len, i));
    }
}

/// Number of tiles occupied by the snake body.
pub open spec fn snake_count(tiles: Seq<Tile>) -> nat
    decreases tiles.len(),
{
    if tiles.len() == 0 {
        0nat
    } else {
        snake_count(tiles.drop_last()) + (if tiles.last().kind is Snake {
            1nat
        } else {
            0nat
        })
    }
}

/// Replacing one tile changes the snake-tile count by the difference the two
/// kinds make.
pub proof fn lemma_snake_count_update(tiles: Seq<Tile>, i: int, t: Tile)
    requires
        0 <= i < tiles.len(),
    ensures
        snake_count(tiles.update(i, t)) == snake_count(tiles) - (if tiles[i].kind is Snake {
            1int
        } else {
            0int
        }) + (if t.kind is Snake {
            1int
        } else {
            0int
        }),
    decreases tiles.len(),
{
    let upd = tiles.update(i, t);
    if i == tiles.len() - 1 {
        assert(upd.drop_last() =~= tiles.drop_last());
    } else {
        assert(upd.drop_last() =~= tiles.drop_last().update(i, t));
        lemma_snake_count_update(tiles.drop_last(), i, t);
    }
}

/// A board without snake tiles has snake-tile count zero.
pub proof fn lemma_snake_count_none(tiles: Seq<Tile>)
    requires
        forall|i: int| 0 <= i < tiles.len() ==> !((#[trigger] tiles[i]).kind is Snake),
    ensures
        snake_count(tiles) == 0,
    decreases tiles.len(),
{
    if tiles.len() > 0 {
        lemma_snake_count_none(tiles.drop_last());
    }
}

/// There are no more snake tiles than tiles.
pub proof fn lemma_snake_count_le_len(tiles: Seq<Tile>)
    ensures
        snake_count(tiles) <= tiles.len(),
    decreases tiles.len(),
{
    if tiles.len() > 0 {
        lemma_snake_count_le_len(tiles.drop_last());
    }
}

/// The law behind the body-length bookkeeping: on a board whose segment
/// indices are exactly `0..=head`, one per tile, the snake occupies exactly
/// `head + 1` tiles.
pub proof fn lemma_body_length(tiles: Seq<Tile>, head: u32)
    requires
        segments_ok(tiles, head),
    ensures
        snake_count(tiles) == head as int + 1,
    decreases head,
{
    assert(has_seg(tiles, head));
    let i_head = choose|i: int| seg_at(tiles, i, head);
    assert(seg_at(tiles, i_head, head));
    let cleared = Tile { kind: TileKind::Empty, pos: tiles[i_head].pos };
    let rest = tiles.update(i_head, cleared);
    lemma_snake_count_update(tiles, i_head, cleared);
    if head == 0 {
        assert forall|i: int| 0 <= i < rest.len() implies !((#[trigger] rest[i]).kind is Snake) by {
            if rest[i].kind is Snake && i != i_head {
                match tiles[i].kind {
                    TileKind::Snake(k) => {
                        assert(seg_at(tiles, i, k));
                        assert(k == 0);
                        assert(seg_at(tiles, i, 0) && seg_at(tiles, i_head, 0));
                    },
                    _ => {},
                }
            }
        }
        lemma_snake_count_none(rest);
    } else {
        let down = (head - 1) as u32;
        assert forall|k: u32| k <= down implies #[trigger] has_seg(rest, k) by {
            assert(has_seg(tiles, k));
            let i = choose|i: int| seg_at(tiles, i, k);
            assert(seg_at(tiles, i, k));
            assert(i != i_head);
            assert(seg_at(rest, i, k));
        }
        assert forall|i: int, k: u32| #[trigger] seg_at(rest, i, k) implies k <= down by {
            assert(i != i_head);
            assert(seg_at(tiles, i, k));
            if k == head {
                assert(seg_at(tiles, i_head, head));
            }
        }
        assert forall|i: int, j: int, k: u32|
            #[trigger] seg_at(rest, i, k) && #[trigger] seg_at(rest, j, k) implies i == j by {
            assert(i != i_head && j != i_head);
            assert(seg_at(tiles, i, k) && seg_at(tiles, j, k));
        }
        lemma_body_length(rest, down);
    }
}

/// The head index is always a valid bound: the body fits on the board.
pub proof fn lemma_head_index_bound(tiles: Seq<Tile>, head: u32)
    requires
        segments_ok(tiles, head),
    ensures
        head as int + 1 <= tiles.len(),
{
    lemma_body_length(tiles, head);
    lemma_snake_count_le_len(tiles);
}

/// The square grid: `side * side` tiles in row-major order.
pub struct Board {
    pub side: usize,
    pub tiles: Vec<Tile>,
}

impl Board {
    /// Structural well-formedness of the whole board.
    pub open spec fn wf(self) -> bool {
        tiles_wf(self.side as int, self.tiles@)
    }

    /// Build a fresh board: `side * side` tiles, obstacles on the perimeter,
    /// a horizontal snake of `initial_snake_length` segments centered on the
    /// middle row (leftmost segment is the tail, index 0), all else empty.
    pub fn build(side: usize, initial_snake_length: u32) -> (b: Board)
        requires
            build_pre(side as int, initial_snake_length as int),
        ensures
            b.side == side,
            fresh_tiles(side as int, initial_snake_length as int, b.tiles@),
    {
        proof {
            lemma_start_col_bounds(side as int, initial_snake_length as int);
            assert(side * side <= 1000 * 1000) by (nonlinear_arith)
                requires
                    side <= 1000,
            ;
        }
        let len_u: usize = initial_snake_length as usize;
        let mid: usize = side / 2;
        let start: usize = mid - len_u / 2;
        let area: usize = side * side;
        let mut tiles: Vec<Tile> = Vec::new();
        let mut i: usize = 0;
        while i < area
            invariant
                build_pre(side as int, len_u as int),
                len_u == initial_snake_length,
                mid == side as int / 2,
                start == start_col(side as int, len_u as int),
                2 <= start,
                start + len_u <= side - 1,
                area == side * side,
                i <= area,
                tiles@.len() == i,
                forall|j: int|
                    0 <= j < i ==> #[trigger] tiles@[j] == (Tile {
                        kind: initial_kind(side as int, len_u as int, j),
                        pos: Position {
                            x: col_of(side as int, j) as i32,
                            y: row_of(side as int, j) as i32,
                        },
                    }),
            decreases area - i,
        {
            let x = i % side;
            let y = i / side;
            proof {
                lemma_div_is_ordered(i as int, area - 1, side as int);
                assert((side - 1) * side as int + (side - 1) == side * side - 1) by (nonlinear_arith);
                lemma_fundamental_div_mod_converse(area - 1, side as int, side - 1, side - 1);
            }
            let kind = if x == 0 || x == side - 1 || y == 0 || y == side - 1 {
                TileKind::Obstacle
            } else if y == mid && x >= start && x < start + len_u {
                TileKind::Snake((x - start) as u32)
            } else {
                TileKind::Empty
            };
            tiles.push(Tile { kind, pos: Position { x: x as i32, y: y as i32 } });
            i = i + 1;
        }
        Board { side, tiles }
    }

    /// Look the tile up that sits at the given coordinate; yields nothing
    /// when the coordinate lies outside the grid.
    pub fn tile_at(&self, pos: Position) -> (r: Option<&Tile>)
        requires
            self.wf(),
        ensures
            match r {
                Some(t) => {
                    &&& 0 <= pos.x < self.side
                    &&& 0 <= pos.y < self.side
                    &&& *t == self.tiles@[index_of(self.side as int, pos.x as int, pos.y as int)]
                    &&& t.pos == pos
                },
                None => !(0 <= pos.x < self.side && 0 <= pos.y < self.side),
            },
    {
        if pos.x < 0 || pos.y < 0 {
            return None;
        }
        let x = pos.x as usize;
        let y = pos.y as usize;
        if x >= self.side || y >= self.side {
            return None;
        }
        proof {
            assert(y * self.side + x < self.side * self.side) by (nonlinear_arith)
                requires
                    0 <= x < self.side,
                    0 <= y < self.side,
            ;
            assert(self.side * self.side <= 1000 * 1000) by (nonlinear_arith)
                requires
                    self.side <= 1000,
            ;
            lemma_fundamental_div_mod_converse(
                y as int * self.side as int + x as int,
                self.side as int,
                y as int,
                x as int,
            );
        }
        let idx = y * self.side + x;
        Some(&self.tiles[idx])
    }
}

} // verus!
