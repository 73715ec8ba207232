//! The per-tick step engine, the food spawner, and the game state machine.
use vstd::prelude::*;
use vstd::arithmetic::div_mod::lemma_fundamental_div_mod_converse;
use rand::Rng;
use crate::board::{
    Board, build_pre, tiles_wf, perimeter_obstacles, segments_ok, food_at_most_one, food_exists,
    seg_at, has_seg, snake_count, lemma_body_length, lemma_head_index_bound, lemma_fresh_board_ok,
    lemma_snake_count_update, col_of, row_of, index_of, on_perimeter, fresh_tiles,
};
use crate::clock::StepClock;
use crate::direction::{Direction, delta_x, delta_y};
use crate::tile::{Tile, TileKind};

verus! {

/// The two states of the game machine: the simulation runs while `Playing`
/// and stands still in `Over` until an explicit restart.
#[derive(Clone, Copy, PartialEq, Eq, Structural, Debug)]
pub enum GameState {
    Playing,
    Over,
}

/// Some tile on the board is walkable and unoccupied.
pub open spec fn empty_exists(tiles: Seq<Tile>) -> bool {
    exists|i: int| 0 <= i < tiles.len() && (#[trigger] tiles[i]).kind is Empty
}

/// A tile after the body renumbering that follows a plain move: the tail
/// (segment 0) is cleared, every other segment index drops by one, and
/// tiles that hold no segment stay as they are.
pub open spec fn renumbered(t: Tile) -> Tile {
    match t.kind {
        TileKind::Snake(k) => if k == 0 {
            Tile { kind: TileKind::Empty, pos: t.pos }
        } else {
            Tile { kind: TileKind::Snake((k - 1) as u32), pos: t.pos }
        },
        _ => t,
    }
}

/// The whole board after a move into the empty cell `t`: that cell becomes
/// the new head, and the body behind it is renumbered toward the tail.
pub open spec fn empty_move_tiles(tiles: Seq<Tile>, t: int, head: u32) -> Seq<Tile> {
    Seq::new(
        tiles.len(),
        |i: int|
            if i == t {
                Tile { kind: TileKind::Snake(head), pos: tiles[t].pos }
            } else {
                renumbered(tiles[i])
            },
    )
}

/// The whole board after a move into the food cell `t`: that cell becomes
/// the new head and nothing else changes, so the body grows by one.
pub open spec fn food_move_tiles(tiles: Seq<Tile>, t: int, head: u32) -> Seq<Tile> {
    tiles.update(t, Tile { kind: TileKind::Snake((head + 1) as u32), pos: tiles[t].pos })
}

/// One full frame, composed from the clock gate, the legality rule, the
/// step classification, the spawner, and the two machine transitions. In
/// the terminal state only an explicit restart acts; while playing, a due
/// tick samples the heading and steps the world, after which either the
/// food slot is refilled or a collision tears the game down.
pub open spec fn frame_spec(
    pre: Game,
    post: Game,
    delta_ns: u64,
    requested: Option<Direction>,
    restart: bool,
) -> bool {
    match pre.state {
        GameState::Over => if restart {
            post.fresh(pre.board.side as int, pre.init_len as int, pre.period_ns)
        } else {
            post == pre
        },
        GameState::Playing => {
            let turned = Game {
                clock: pre.clock.ticked(delta_ns),
                direction: dir_after(pre.direction, requested),
                ..pre
            };
            if !pre.clock.due_after(delta_ns) {
                // the step engine does not run; the heading is not even sampled
                &&& post.state is Playing
                &&& post.direction == pre.direction
                &&& post.head_index == pre.head_index
                &&& post.score == pre.score
                &&& post.clock == pre.clock.ticked(delta_ns)
                &&& post.board.side == pre.board.side
                &&& post.init_len == pre.init_len
                &&& post.period_ns == pre.period_ns
                &&& spawn_spec(pre.board.tiles@, post.board.tiles@)
            } else {
                exists|mid: Game|
                    {
                        &&& #[trigger] step_spec(turned, mid)
                        &&& step_fixed(turned, mid)
                        &&& (mid.state is Playing ==> {
                            &&& post.state is Playing
                            &&& post.direction == turned.direction
                            &&& post.head_index == mid.head_index
                            &&& post.score == mid.score
                            &&& post.clock == turned.clock
                            &&& post.board.side == pre.board.side
                            &&& post.init_len == pre.init_len
                            &&& post.period_ns == pre.period_ns
                            &&& spawn_spec(mid.board.tiles@, post.board.tiles@)
                        })
                        &&& (mid.state is Over ==> {
                            &&& post.state is Over
                            &&& post.clock == (StepClock { paused: true, ..turned.clock })
                            &&& post.board.side == pre.board.side
                            &&& post.board.tiles@.len() == 0
                            &&& post.direction == turned.direction
                            &&& post.head_index == mid.head_index
                            &&& post.score == mid.score
                            &&& post.init_len == pre.init_len
                            &&& post.period_ns == pre.period_ns
                        })
                    }
            }
        },
    }
}

/// A move into an empty cell keeps every board invariant: the body stays
/// coherent with the same head index, its tile count is unchanged, the
/// perimeter and every food tile stay exactly as they were.
pub proof fn lemma_empty_move_ok(side: int, tiles: Seq<Tile>, t: int, head: u32)
    requires
        tiles_wf(side, tiles),
        perimeter_obstacles(side, tiles),
        segments_ok(tiles, head),
        food_at_most_one(tiles),
        0 <= t < tiles.len(),
        tiles[t].kind is Empty,
    ensures
        tiles_wf(side, empty_move_tiles(tiles, t, head)),
        perimeter_obstacles(side, empty_move_tiles(tiles, t, head)),
        segments_ok(empty_move_tiles(tiles, t, head), head),
        food_at_most_one(empty_move_tiles(tiles, t, head)),
        snake_count(empty_move_tiles(tiles, t, head)) == snake_count(tiles),
        forall|i: int|
            0 <= i < tiles.len() && on_perimeter(side, i) ==> empty_move_tiles(tiles, t, head)[i]
                == tiles[i],
{
    let new = empty_move_tiles(tiles, t, head);
    assert forall|i: int|
        0 <= i < new.len() && on_perimeter(side, i) implies #[trigger] new[i] == tiles[i] by {
        assert(tiles[i].kind == TileKind::Obstacle);
        assert(i != t);
    }
    assert forall|k: u32| k <= head implies #[trigger] has_seg(new, k) by {
        if k == head {
            assert(seg_at(new, t, k));
        } else {
            let up = (k + 1) as u32;
            assert(has_seg(tiles, up));
            let i = choose|i: int| seg_at(tiles, i, up);
            assert(seg_at(tiles, i, up));
            assert(i != t);
            assert(new[i] == renumbered(tiles[i]));
            assert(seg_at(new, i, k));
        }
    }
    assert forall|i: int, k: u32| #[trigger] seg_at(new, i, k) implies k <= head by {
        if i != t {
            match tiles[i].kind {
                TileKind::Snake(m) => {
                    assert(seg_at(tiles, i, m));
                    assert(m >= 1);
                    assert(k == m - 1);
                },
                _ => {},
            }
        }
    }
    assert forall|i: int, j: int, k: u32|
        #[trigger] seg_at(new, i, k) && #[trigger] seg_at(new, j, k) implies i == j by {
        if i != t && j != t {
            match tiles[i].kind {
                TileKind::Snake(mi) => {
                    match tiles[j].kind {
                        TileKind::Snake(mj) => {
                            assert(mi >= 1 && mj >= 1);
                            assert(mi == k + 1 && mj == k + 1);
                            assert(seg_at(tiles, i, mi) && seg_at(tiles, j, mi));
                        },
                        _ => {},
                    }
                },
                _ => {},
            }
        } else if i == t && j != t {
            assert(k == head);
            match tiles[j].kind {
                TileKind::Snake(mj) => {
                    assert(mj >= 1);
                    assert(mj == k + 1);
                    assert(seg_at(tiles, j, mj));
                },
                _ => {},
            }
        } else if i != t && j == t {
            assert(k == head);
            match tiles[i].kind {
                TileKind::Snake(mi) => {
                    assert(mi >= 1);
                    assert(mi == k + 1);
                    assert(seg_at(tiles, i, mi));
                },
                _ => {},
            }
        }
    }
    assert forall|i: int|
        0 <= i < new.len() && (#[trigger] new[i]).kind is Food implies tiles[i].kind is Food by {
        assert(i != t);
    }
    lemma_body_length(tiles, head);
    lemma_body_length(new, head);
}

/// A move into the food cell keeps every board invariant: the body stays
/// coherent with the head index one higher, it occupies one more tile, the
/// food is consumed, and the perimeter stays exactly as it was.
pub proof fn lemma_food_move_ok(side: int, tiles: Seq<Tile>, t: int, head: u32)
    requires
        tiles_wf(side, tiles),
        perimeter_obstacles(side, tiles),
        segments_ok(tiles, head),
        food_at_most_one(tiles),
        0 <= t < tiles.len(),
        tiles[t].kind is Food,
        head as int + 1 <= u32::MAX,
    ensures
        tiles_wf(side, food_move_tiles(tiles, t, head)),
        perimeter_obstacles(side, food_move_tiles(tiles, t, head)),
        segments_ok(food_move_tiles(tiles, t, head), (head + 1) as u32),
        !food_exists(food_move_tiles(tiles, t, head)),
        food_at_most_one(food_move_tiles(tiles, t, head)),
        snake_count(food_move_tiles(tiles, t, head)) == snake_count(tiles) + 1,
        forall|i: int|
            0 <= i < tiles.len() && on_perimeter(side, i) ==> food_move_tiles(tiles, t, head)[i]
                == tiles[i],
{
    let up = (head + 1) as u32;
    let new = food_move_tiles(tiles, t, head);
    assert forall|i: int|
        0 <= i < new.len() && on_perimeter(side, i) implies #[trigger] new[i] == tiles[i] by {
        assert(tiles[i].kind == TileKind::Obstacle);
        assert(i != t);
    }
    assert forall|k: u32| k <= up implies #[trigger] has_seg(new, k) by {
        if k == up {
            assert(seg_at(new, t, k));
        } else {
            assert(has_seg(tiles, k));
            let i = choose|i: int| seg_at(tiles, i, k);
            assert(seg_at(tiles, i, k));
            assert(i != t);
            assert(seg_at(new, i, k));
        }
    }
    assert forall|i: int, k: u32| #[trigger] seg_at(new, i, k) implies k <= up by {
        if i != t {
            assert(seg_at(tiles, i, k));
        }
    }
    assert forall|i: int, j: int, k: u32|
        #[trigger] seg_at(new, i, k) && #[trigger] seg_at(new, j, k) implies i == j by {
        if i != t && j != t {
            assert(seg_at(tiles, i, k) && seg_at(tiles, j, k));
        } else if i == t && j != t {
            assert(seg_at(tiles, j, k));
        } else if i != t && j == t {
            assert(seg_at(tiles, i, k));
        }
    }
    assert forall|i: int| 0 <= i < new.len() implies !((#[trigger] new[i]).kind is Food) by {
        if i != t && new[i].kind is Food {
            assert(tiles[i].kind is Food && tiles[t].kind is Food);
        }
    }
    lemma_snake_count_update(tiles, t, Tile { kind: TileKind::Snake(up), pos: tiles[t].pos });
}

/// What a step never touches: the grid size, the heading, the clock, and
/// the startup configuration.
pub open spec fn step_fixed(pre: Game, post: Game) -> bool {
    &&& post.board.side == pre.board.side
    &&& post.direction == pre.direction
    &&& post.clock == pre.clock
    &&& post.init_len == pre.init_len
    &&& post.period_ns == pre.period_ns
}

/// Outcome of a step into an obstacle or into the body: the game machine
/// moves to `Over` and the board is left untouched.
pub open spec fn collision_outcome(pre: Game, post: Game) -> bool {
    &&& post.state is Over
    &&& post.board.tiles@ == pre.board.tiles@
    &&& post.head_index == pre.head_index
    &&& post.score == pre.score
}

/// Outcome of a step into food: the food cell becomes the new head, the
/// body grows by one tile, and both the head index and the score go up by
/// one. No tail tile is cleared.
pub open spec fn food_outcome(pre: Game, post: Game) -> bool {
    let tiles = pre.board.tiles@;
    let t = pre.target_cell();
    &&& post.state is Playing
    &&& post.board.tiles@ == food_move_tiles(tiles, t, pre.head_index)
    &&& post.head_index == pre.head_index + 1
    &&& post.score == pre.score + 1
    &&& snake_count(post.board.tiles@) == snake_count(tiles) + 1
    &&& !food_exists(post.board.tiles@)
}

/// Outcome of a step into an empty cell: the cell becomes the new head, the
/// old tail is cleared, every other segment index drops by one, and the
/// body occupies as many tiles as before. Head index and score are
/// unchanged.
pub open spec fn empty_outcome(pre: Game, post: Game) -> bool {
    let tiles = pre.board.tiles@;
    let t = pre.target_cell();
    &&& post.state is Playing
    &&& post.board.tiles@ == empty_move_tiles(tiles, t, pre.head_index)
    &&& post.head_index == pre.head_index
    &&& post.score == pre.score
    &&& snake_count(post.board.tiles@) == snake_count(tiles)
}

/// The heading after a frame's at-most-one input request has gone through
/// the legality rule: the exact opposite is rejected, all else accepted.
pub open spec fn dir_after(current: Direction, requested: Option<Direction>) -> Direction {
    match requested {
        Some(d) => if d == current.opposite() {
            current
        } else {
            d
        },
        None => current,
    }
}

/// Board relation of one spawner run: a no-op when food already exists or
/// when no tile is empty; otherwise exactly one empty tile becomes food.
pub open spec fn spawn_spec(pre_tiles: Seq<Tile>, post_tiles: Seq<Tile>) -> bool {
    if food_exists(pre_tiles) || !empty_exists(pre_tiles) {
        post_tiles == pre_tiles
    } else {
        exists|i: int|
            {
                &&& 0 <= i < pre_tiles.len()
                &&& (#[trigger] pre_tiles[i]).kind is Empty
                &&& post_tiles == pre_tiles.update(
                    i,
                    Tile { kind: TileKind::Food, pos: pre_tiles[i].pos },
                )
            }
    }
}

/// One completed step, classified by what the head ran into.
pub open spec fn step_spec(pre: Game, post: Game) -> bool {
    let tiles = pre.board.tiles@;
    match tiles[pre.target_cell()].kind {
        TileKind::Obstacle => collision_outcome(pre, post),
        TileKind::Snake(_) => collision_outcome(pre, post),
        TileKind::Food => food_outcome(pre, post),
        TileKind::Empty => empty_outcome(pre, post),
    }
}

/// The complete simulation context: the board and every per-game counter.
pub struct Game {
    pub board: Board,
    pub direction: Direction,
    pub head_index: u32,
    pub score: u32,
    pub state: GameState,
    pub clock: StepClock,
    pub init_len: u32,
    pub period_ns: u64,
}

impl Game {
    /// The startup configuration is kept for restarts and stays legal.
    pub open spec fn config_wf(self) -> bool {
        &&& build_pre(self.board.side as int, self.init_len as int)
        &&& 1 <= self.period_ns
    }

    /// Everything that holds of the board while the game is running.
    pub open spec fn playing_inv(self) -> bool {
        &&& self.board.wf()
        &&& perimeter_obstacles(self.board.side as int, self.board.tiles@)
        &&& segments_ok(self.board.tiles@, self.head_index)
        &&& food_at_most_one(self.board.tiles@)
        &&& self.score <= self.head_index
    }

    /// The game invariant: legal configuration, a well-formed clock, and,
    /// while playing, a coherent board.
    pub open spec fn inv(self) -> bool {
        &&& self.config_wf()
        &&& self.clock.wf()
        &&& self.state is Playing ==> self.playing_inv()
    }

    /// Index of the tile that holds the head segment.
    pub open spec fn head_cell(self) -> int {
        choose|i: int| seg_at(self.board.tiles@, i, self.head_index)
    }

    /// Index of the cell one step ahead of the head along the heading.
    pub open spec fn target_cell(self) -> int {
        let hp = self.board.tiles@[self.head_cell()].pos;
        index_of(
            self.board.side as int,
            hp.x + delta_x(self.direction),
            hp.y + delta_y(self.direction),
        )
    }

    /// A fresh game: a freshly built board, score zero, the head index of
    /// the initial snake, the default heading, a running clock, `Playing`.
    pub open spec fn fresh(self, side: int, len: int, period_ns: u64) -> bool {
        &&& self.board.side == side
        &&& fresh_tiles(side, len, self.board.tiles@)
        &&& self.direction == Direction::Right
        &&& self.head_index == len - 1
        &&& self.score == 0
        &&& self.state is Playing
        &&& self.clock == StepClock { period_ns, elapsed_ns: 0, paused: false }
        &&& self.init_len == len
        &&& self.period_ns == period_ns
    }

    /// Start a game: build the board and reset every counter.
    pub fn new(side: usize, initial_snake_length: u32, period_ns: u64) -> (g: Game)
        requires
            build_pre(side as int, initial_snake_length as int),
            1 <= period_ns,
        ensures
            g.inv(),
            g.fresh(side as int, initial_snake_length as int, period_ns),
    {
        let board = Board::build(side, initial_snake_length);
        proof {
            lemma_fresh_board_ok(side as int, initial_snake_length as int, board.tiles@);
        }
        Game {
            board,
            direction: Direction::Right,
            head_index: initial_snake_length - 1,
            score: 0,
            state: GameState::Playing,
            clock: StepClock::new(period_ns),
            init_len: initial_snake_length,
            period_ns,
        }
    }

    /// Find the tile that holds the head segment. The board invariant
    /// guarantees it exists; its absence would be a corrupted state that no
    /// input can reach, so this function never fails under its contract.
    fn find_head(&self) -> (r: usize)
        requires
            segments_ok(self.board.tiles@, self.head_index),
        ensures
            seg_at(self.board.tiles@, r as int, self.head_index),
    {
        let n = self.board.tiles.len();
        let mut i: usize = 0;
        while i < n
            invariant
                n == self.board.tiles@.len(),
                i <= n,
                segments_ok(self.board.tiles@, self.head_index),
                forall|j: int|
                    0 <= j < i ==> (#[trigger] self.board.tiles@[j]).kind != TileKind::Snake(
                        self.head_index,
                    ),
            decreases n - i,
        {
            if self.board.tiles[i].is_head(self.head_index) {
                return i;
            }
            i = i + 1;
        }
        proof {
            assert(has_seg(self.board.tiles@, self.head_index));
            let w = choose|j: int| seg_at(self.board.tiles@, j, self.head_index);
            assert(seg_at(self.board.tiles@, w, self.head_index));
            assert(false);
        }
        vstd::pervasive::unreached()
    }

    /// Advance the world by one tick: move the head one cell along the
    /// heading, and classify what it ran into. An obstacle or a body tile
    /// ends the game and leaves the board untouched; food grows the body
    /// and scores a point; an empty cell moves the body forward.
    pub fn step(&mut self)
        requires
            old(self).inv(),
            old(self).state is Playing,
        ensures
            final(self).inv(),
            step_fixed(*old(self), *final(self)),
            step_spec(*old(self), *final(self)),
            forall|i: int|
                0 <= i < old(self).board.tiles@.len() && on_perimeter(
                    old(self).board.side as int,
                    i,
                ) ==> final(self).board.tiles@[i] == old(self).board.tiles@[i],
    {
        let ghost pre = *self;
        let ghost side = pre.board.side as int;
        let ghost tiles = pre.board.tiles@;
        let ghost head = pre.head_index;
        let hi = self.find_head();
        proof {
            assert(has_seg(tiles, head));
            assert(seg_at(tiles, pre.head_cell(), head));
            assert(pre.head_cell() == hi as int);
            // The head tile holds a segment, so it is no obstacle, hence
            // not on the perimeter; the cell ahead is on the board.
            assert(!on_perimeter(side, hi as int));
            assert(0 <= col_of(side, hi as int) < side);
            vstd::arithmetic::div_mod::lemma_div_is_ordered(
                hi as int,
                side * side - 1,
                side,
            );
            assert((side - 1) * side + (side - 1) == side * side - 1) by (nonlinear_arith);
            lemma_fundamental_div_mod_converse(side * side - 1, side, side - 1, side - 1);
            assert(0 <= row_of(side, hi as int) < side);
            lemma_head_index_bound(tiles, head);
            assert(side * side <= 1000 * 1000) by (nonlinear_arith)
                requires
                    0 <= side <= 1000,
            ;
        }
        let hp = self.board.tiles[hi].pos;
        let (dx, dy) = self.direction.to_delta();
        let nx = hp.x + dx;
        let ny = hp.y + dy;
        proof {
            assert(1 <= hp.x <= side - 2 && 1 <= hp.y <= side - 2);
            assert(0 <= nx < side && 0 <= ny < side);
            assert((ny as int) * side + (nx as int) < side * side) by (nonlinear_arith)
                requires
                    0 <= nx < side,
                    0 <= ny < side,
            ;
        }
        let ti = (ny as usize) * self.board.side + (nx as usize);
        proof {
            assert(ti as int == pre.target_cell());
        }
        let target = self.board.tiles[ti];
        match target.kind {
            TileKind::Obstacle | TileKind::Snake(_) => {
                self.state = GameState::Over;
            },
            TileKind::Food => {
                let mut t = target;
                t.into_head(self.head_index);
                self.board.tiles.set(ti, t);
                self.head_index = self.head_index + 1;
                self.score = self.score + 1;
                proof {
                    lemma_food_move_ok(side, tiles, ti as int, head);
                }
            },
            TileKind::Empty => {
                let mut t = target;
                t.into_head(self.head_index);
                self.board.tiles.set(ti, t);
                let ghost mid_tiles = self.board.tiles@;
                let n = self.board.tiles.len();
                let mut j: usize = 0;
                while j < n
                    invariant
                        n == self.board.tiles@.len(),
                        mid_tiles.len() == n,
                        j <= n,
                        self.board.side == pre.board.side,
                        self.direction == pre.direction,
                        self.clock == pre.clock,
                        self.state == pre.state,
                        self.head_index == pre.head_index,
                        self.score == pre.score,
                        self.init_len == pre.init_len,
                        self.period_ns == pre.period_ns,
                        forall|m: int|
                            0 <= m < j ==> #[trigger] self.board.tiles@[m] == renumbered(
                                mid_tiles[m],
                            ),
                        forall|m: int|
                            j <= m < n ==> #[trigger] self.board.tiles@[m] == mid_tiles[m],
                    decreases n - j,
                {
                    let tj = self.board.tiles[j];
                    match tj.kind {
                        TileKind::Snake(k) => {
                            if k == 0 {
                                self.board.tiles.set(
                                    j,
                                    Tile { kind: TileKind::Empty, pos: tj.pos },
                                );
                            } else {
                                self.board.tiles.set(
                                    j,
                                    Tile { kind: TileKind::Snake(k - 1), pos: tj.pos },
                                );
                            }
                        },
                        _ => {},
                    }
                    j = j + 1;
                }
                proof {
                    assert forall|m: int| 0 <= m < tiles.len() implies #[trigger] self
                        .board
                        .tiles@[m] == empty_move_tiles(tiles, ti as int, head)[m] by {
                        if m == ti as int {
                            assert(mid_tiles[m].kind == TileKind::Snake((head + 1) as u32));
                        } else {
                            assert(mid_tiles[m] == tiles[m]);
                        }
                    }
                    assert(self.board.tiles@ =~= empty_move_tiles(tiles, ti as int, head));
                    lemma_empty_move_ok(side, tiles, ti as int, head);
                }
            },
        }
    }

    /// Refill the single food slot: when no food is on the board, turn one
    /// uniformly chosen empty tile into food. A no-op when food already
    /// exists (the spawner is idempotent) or when no tile is empty.
    pub fn spawn_food(&mut self)
        requires
            old(self).inv(),
            old(self).state is Playing,
        ensures
            final(self).inv(),
            step_fixed(*old(self), *final(self)),
            final(self).state == old(self).state,
            final(self).head_index == old(self).head_index,
            final(self).score == old(self).score,
            spawn_spec(old(self).board.tiles@, final(self).board.tiles@),
            forall|i: int|
                0 <= i < old(self).board.tiles@.len() && on_perimeter(
                    old(self).board.side as int,
                    i,
                ) ==> final(self).board.tiles@[i] == old(self).board.tiles@[i],
    {
        let ghost pre = *self;
        let ghost side = pre.board.side as int;
        let ghost tiles = pre.board.tiles@;
        let n = self.board.tiles.len();
        let mut has_food = false;
        let mut i: usize = 0;
        while i < n
            invariant
                n == self.board.tiles@.len(),
                i <= n,
                has_food <==> exists|j: int|
                    0 <= j < i && (#[trigger] self.board.tiles@[j]).kind is Food,
            decreases n - i,
        {
            if let TileKind::Food = self.board.tiles[i].kind {
                has_food = true;
            }
            i = i + 1;
        }
        if has_food {
            return ;
        }
        let mut empties: Vec<usize> = Vec::new();
        let mut j: usize = 0;
        while j < n
            invariant
                n == self.board.tiles@.len(),
                j <= n,
                forall|m: int|
                    0 <= m < empties@.len() ==> (#[trigger] empties@[m]) < n && self.board.tiles@[
                        empties@[m] as int
                    ].kind is Empty,
                forall|jj: int|
                    0 <= jj < j && (#[trigger] self.board.tiles@[jj]).kind is Empty
                        ==> exists|m: int|
                        0 <= m < empties@.len() && (#[trigger] empties@[m]) as int == jj,
            decreases n - j,
        {
            let tj = self.board.tiles[j];
            let ghost old_empties = empties@;
            if let TileKind::Empty = tj.kind {
                empties.push(j);
            }
            proof {
                assert forall|jj: int|
                    0 <= jj < j + 1 && (#[trigger] self.board.tiles@[jj]).kind
                        is Empty implies exists|m: int|
                    0 <= m < empties@.len() && (#[trigger] empties@[m]) as int == jj by {
                    if jj == j {
                        assert(empties@[empties@.len() - 1] as int == jj);
                    } else {
                        let m0 = choose|m: int|
                            0 <= m < old_empties.len() && (#[trigger] old_empties[m]) as int == jj;
                        assert(empties@[m0] as int == jj);
                    }
                }
            }
            j = j + 1;
        }
        if empties.len() == 0 {
            proof {
                assert(!empty_exists(tiles));
            }
            return ;
        }
        let r = random_index(empties.len());
        let ci = empties[r];
        let chosen = self.board.tiles[ci];
        self.board.tiles.set(ci, Tile { kind: TileKind::Food, pos: chosen.pos });
        proof {
            let c = ci as int;
            let new = self.board.tiles@;
            assert(new == tiles.update(c, Tile { kind: TileKind::Food, pos: tiles[c].pos }));
            assert(empty_exists(tiles));
            assert(tiles[c].kind == TileKind::Empty);
            assert(!on_perimeter(side, c));
            assert forall|k: u32| k <= pre.head_index implies #[trigger] has_seg(new, k) by {
                assert(has_seg(tiles, k));
                let w = choose|w: int| seg_at(tiles, w, k);
                assert(seg_at(tiles, w, k));
                assert(w != c);
                assert(seg_at(new, w, k));
            }
            assert forall|w: int, k: u32| #[trigger] seg_at(new, w, k) implies k
                <= pre.head_index by {
                assert(w != c);
                assert(seg_at(tiles, w, k));
            }
            assert forall|w: int, v: int, k: u32|
                #[trigger] seg_at(new, w, k) && #[trigger] seg_at(new, v, k) implies w == v by {
                assert(w != c && v != c);
                assert(seg_at(tiles, w, k) && seg_at(tiles, v, k));
            }
        }
    }

    /// Entering the terminal state: pause the clock and tear the board's
    /// tiles down. Counters stay as the ended game left them; a restart
    /// resets them.
    pub fn on_game_over(&mut self)
        requires
            old(self).inv(),
            old(self).state is Over,
        ensures
            final(self).inv(),
            final(self).state is Over,
            final(self).clock == (StepClock { paused: true, ..old(self).clock }),
            final(self).board.side == old(self).board.side,
            final(self).board.tiles@.len() == 0,
            final(self).direction == old(self).direction,
            final(self).head_index == old(self).head_index,
            final(self).score == old(self).score,
            final(self).init_len == old(self).init_len,
            final(self).period_ns == old(self).period_ns,
    {
        self.clock.pause();
        self.board.tiles = Vec::new();
    }

    /// Leave the terminal state on an explicit restart: rebuild the board,
    /// reset score, head index and heading, and start a fresh clock.
    pub fn on_restart(&mut self)
        requires
            old(self).inv(),
            old(self).state is Over,
        ensures
            final(self).inv(),
            final(self).fresh(
                old(self).board.side as int,
                old(self).init_len as int,
                old(self).period_ns,
            ),
    {
        let side = self.board.side;
        let len = self.init_len;
        self.board = Board::build(side, len);
        proof {
            lemma_fresh_board_ok(side as int, len as int, self.board.tiles@);
        }
        self.score = 0;
        self.head_index = len - 1;
        self.direction = Direction::Right;
        self.clock = StepClock::new(self.period_ns);
        self.state = GameState::Playing;
    }

    /// One frame of the simulation: while playing, advance the clock and, if
    /// a tick is due, apply at most one requested heading and step the
    /// world; a collision tears the game down, otherwise the food slot is
    /// refilled. In the terminal state, only an explicit restart acts.
    pub fn frame(&mut self, delta_ns: u64, requested: Option<Direction>, restart: bool)
        requires
            old(self).inv(),
        ensures
            final(self).inv(),
            frame_spec(*old(self), *final(self), delta_ns, requested, restart),
    {
        let ghost pre = *self;
        match self.state {
            GameState::Playing => {
                let due = self.clock.tick(delta_ns);
                if due {
                    if let Some(d) = requested {
                        self.direction.apply_input(d);
                    }
                    let ghost turned = (Game {
                        clock: pre.clock.ticked(delta_ns),
                        direction: dir_after(pre.direction, requested),
                        ..pre
                    });
                    proof {
                        assert(*self == turned);
                    }
                    self.step();
                    let ghost mid = *self;
                    match self.state {
                        GameState::Playing => {
                            self.spawn_food();
                        },
                        GameState::Over => {
                            self.on_game_over();
                        },
                    }
                    proof {
                        assert(step_spec(turned, mid) && step_fixed(turned, mid));
                    }
                } else {
                    self.spawn_food();
                }
            },
            GameState::Over => {
                if restart {
                    self.on_restart();
                }
            },
        }
    }
}

/// Relies on rand's thread-local generator and `Rng::gen_range`: returns a
/// uniformly distributed value in `0..n`. The range is non-empty under the
/// precondition, so the call does not panic.
#[verifier::external_body]
fn random_index(n: usize) -> (r: usize)
    requires
        1 <= n,
    ensures
        r < n,
{
    rand::thread_rng().gen_range(0..n)
}

} // verus!
