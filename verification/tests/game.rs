use snake_core::board::Board;
use snake_core::direction::Direction;
use snake_core::engine::{Game, GameState};
use snake_core::tile::{Position, Tile, TileKind};

const SIDE: usize = 16;
const LEN: u32 = 5;
const PERIOD: u64 = 100_000_000;

fn idx(x: usize, y: usize) -> usize {
    y * SIDE + x
}

fn snake_tiles(b: &Board) -> usize {
    b.tiles.iter().filter(|t| matches!(t.kind, TileKind::Snake(_))).count()
}

fn food_tiles(b: &Board) -> usize {
    b.tiles.iter().filter(|t| matches!(t.kind, TileKind::Food)).count()
}

#[test]
fn fresh_board_layout() {
    let g = Game::new(SIDE, LEN, PERIOD);
    assert_eq!(g.board.side, SIDE);
    assert_eq!(g.board.tiles.len(), SIDE * SIDE);
    assert_eq!(g.head_index, 4);
    assert_eq!(g.score, 0);
    assert_eq!(g.direction, Direction::Right);
    assert_eq!(g.state, GameState::Playing);
    // the initial body spans (6,8)..(10,8), tail on the left
    for k in 0..5usize {
        assert_eq!(g.board.tiles[idx(6 + k, 8)].kind, TileKind::Snake(k as u32));
    }
    // the perimeter ring is all obstacles
    for x in 0..SIDE {
        for y in 0..SIDE {
            let on_ring = x == 0 || x == SIDE - 1 || y == 0 || y == SIDE - 1;
            let kind = g.board.tiles[idx(x, y)].kind;
            if on_ring {
                assert_eq!(kind, TileKind::Obstacle);
            } else {
                assert_ne!(kind, TileKind::Obstacle);
            }
        }
    }
    assert_eq!(snake_tiles(&g.board), 5);
    assert_eq!(food_tiles(&g.board), 0);
}

#[test]
fn move_into_empty() {
    let mut g = Game::new(SIDE, LEN, PERIOD);
    g.step();
    assert_eq!(g.state, GameState::Playing);
    assert_eq!(g.head_index, 4);
    assert_eq!(g.score, 0);
    // head advanced to (11,8); old tail (6,8) cleared; body renumbered
    assert_eq!(g.board.tiles[idx(11, 8)].kind, TileKind::Snake(4));
    assert_eq!(g.board.tiles[idx(6, 8)].kind, TileKind::Empty);
    for k in 0..4usize {
        assert_eq!(g.board.tiles[idx(7 + k, 8)].kind, TileKind::Snake(k as u32));
    }
    assert_eq!(snake_tiles(&g.board), 5);
}

#[test]
fn move_into_food_grows_and_scores() {
    let mut g = Game::new(SIDE, LEN, PERIOD);
    let t = idx(11, 8);
    let pos = g.board.tiles[t].pos;
    g.board.tiles[t] = Tile { kind: TileKind::Food, pos };
    g.step();
    assert_eq!(g.state, GameState::Playing);
    assert_eq!(g.head_index, 5);
    assert_eq!(g.score, 1);
    assert_eq!(g.board.tiles[idx(11, 8)].kind, TileKind::Snake(5));
    // no tail tile is cleared on a growth tick
    assert_eq!(g.board.tiles[idx(6, 8)].kind, TileKind::Snake(0));
    assert_eq!(snake_tiles(&g.board), 6);
    assert_eq!(food_tiles(&g.board), 0);
}

#[test]
fn wall_collision_ends_the_game() {
    let mut g = Game::new(SIDE, LEN, PERIOD);
    for _ in 0..4 {
        g.step();
        assert_eq!(g.state, GameState::Playing);
    }
    // head is now at (14,8), right next to the wall
    assert_eq!(g.board.tiles[idx(14, 8)].kind, TileKind::Snake(4));
    let before = g.board.tiles.clone();
    g.step();
    assert_eq!(g.state, GameState::Over);
    // the board is left untouched by the colliding step
    assert_eq!(g.board.tiles, before);
    assert_eq!(g.board.tiles[idx(15, 8)].kind, TileKind::Obstacle);
    assert_eq!(g.score, 0);
}

#[test]
fn self_collision_ends_the_game() {
    let mut g = Game::new(SIDE, LEN, PERIOD);
    g.direction.apply_input(Direction::Up);
    g.step();
    assert_eq!(g.board.tiles[idx(10, 9)].kind, TileKind::Snake(4));
    g.direction.apply_input(Direction::Left);
    g.step();
    assert_eq!(g.board.tiles[idx(9, 9)].kind, TileKind::Snake(4));
    g.direction.apply_input(Direction::Down);
    g.step();
    // (9,8) still holds a body segment: the move is a self-collision
    assert_eq!(g.state, GameState::Over);
    assert!(matches!(g.board.tiles[idx(9, 8)].kind, TileKind::Snake(_)));
}

#[test]
fn single_segment_snake_moves() {
    let mut g = Game::new(6, 1, PERIOD);
    // mid row 3, single segment at (3,3)
    assert_eq!(g.head_index, 0);
    assert_eq!(g.board.tiles[3 * 6 + 3].kind, TileKind::Snake(0));
    g.step();
    assert_eq!(g.state, GameState::Playing);
    assert_eq!(g.board.tiles[3 * 6 + 4].kind, TileKind::Snake(0));
    assert_eq!(g.board.tiles[3 * 6 + 3].kind, TileKind::Empty);
    assert_eq!(snake_tiles(&g.board), 1);
}

#[test]
fn spawner_places_one_food_on_an_empty_tile() {
    let mut g = Game::new(SIDE, LEN, PERIOD);
    let before = g.board.tiles.clone();
    g.spawn_food();
    assert_eq!(food_tiles(&g.board), 1);
    let i = g.board.tiles.iter().position(|t| t.kind == TileKind::Food).unwrap();
    assert_eq!(before[i].kind, TileKind::Empty);
    // everything else is untouched
    for j in 0..g.board.tiles.len() {
        if j != i {
            assert_eq!(g.board.tiles[j], before[j]);
        }
    }
}

#[test]
fn spawner_is_idempotent_with_food_present() {
    let mut g = Game::new(SIDE, LEN, PERIOD);
    g.spawn_food();
    let after_first = g.board.tiles.clone();
    g.spawn_food();
    assert_eq!(g.board.tiles, after_first);
    assert_eq!(food_tiles(&g.board), 1);
}

#[test]
fn spawner_no_op_without_an_empty_tile() {
    // a 4x4 board whose whole interior is a coiled snake: nothing is empty,
    // so the spawner has nowhere to place food and does nothing
    let mut g = Game::new(4, 1, PERIOD);
    let cells: [(usize, usize, u32); 4] = [(1, 1, 0), (2, 1, 1), (2, 2, 2), (1, 2, 3)];
    for &(x, y, k) in cells.iter() {
        let i = y * 4 + x;
        let pos = g.board.tiles[i].pos;
        g.board.tiles[i] = Tile { kind: TileKind::Snake(k), pos };
    }
    g.head_index = 3;
    let before = g.board.tiles.clone();
    g.spawn_food();
    assert_eq!(g.board.tiles, before);
}

#[test]
fn game_over_pauses_and_tears_down() {
    let mut g = Game::new(SIDE, LEN, PERIOD);
    for _ in 0..5 {
        g.step();
    }
    assert_eq!(g.state, GameState::Over);
    g.on_game_over();
    assert!(g.clock.paused);
    assert_eq!(g.board.tiles.len(), 0);
}

#[test]
fn restart_rebuilds_a_fresh_game() {
    let mut g = Game::new(SIDE, LEN, PERIOD);
    g.direction.apply_input(Direction::Up);
    for _ in 0..8 {
        g.step();
        if g.state == GameState::Over {
            break;
        }
    }
    assert_eq!(g.state, GameState::Over);
    g.on_game_over();
    g.on_restart();
    assert_eq!(g.state, GameState::Playing);
    assert_eq!(g.score, 0);
    assert_eq!(g.head_index, LEN - 1);
    assert_eq!(g.direction, Direction::Right);
    assert!(!g.clock.paused);
    assert_eq!(g.clock.elapsed_ns, 0);
    let fresh = Game::new(SIDE, LEN, PERIOD);
    assert_eq!(g.board.tiles, fresh.board.tiles);
}

#[test]
fn frame_is_gated_by_the_clock() {
    let mut g = Game::new(SIDE, LEN, 100);
    // park the single food on a far-off tile so the spawner stays a no-op
    // and the snake's path is deterministic
    let far = idx(1, 1);
    let pos = g.board.tiles[far].pos;
    g.board.tiles[far] = Tile { kind: TileKind::Food, pos };
    g.frame(50, Some(Direction::Up), false);
    // not due: the snake has not moved (food may have spawned)
    assert_eq!(g.board.tiles[idx(10, 8)].kind, TileKind::Snake(4));
    assert_eq!(g.direction, Direction::Right);
    g.frame(60, Some(Direction::Up), false);
    // due: the heading was applied and the head moved up
    assert_eq!(g.direction, Direction::Up);
    assert_eq!(g.board.tiles[idx(10, 9)].kind, TileKind::Snake(4));
}

#[test]
fn frame_restarts_only_from_the_terminal_state() {
    let mut g = Game::new(SIDE, LEN, 100);
    let far = idx(1, 1);
    let pos = g.board.tiles[far].pos;
    g.board.tiles[far] = Tile { kind: TileKind::Food, pos };
    for _ in 0..5 {
        g.frame(100, None, false);
    }
    assert_eq!(g.state, GameState::Over);
    assert_eq!(g.board.tiles.len(), 0);
    assert!(g.clock.paused);
    g.frame(100, None, false);
    assert_eq!(g.state, GameState::Over);
    g.frame(100, None, true);
    assert_eq!(g.state, GameState::Playing);
    assert_eq!(g.score, 0);
    assert_eq!(g.head_index, LEN - 1);
    assert_eq!(snake_tiles(&g.board), LEN as usize);
}

#[test]
fn tile_lookup_by_position() {
    let g = Game::new(SIDE, LEN, PERIOD);
    let t = g.board.tile_at(Position { x: 10, y: 8 }).unwrap();
    assert_eq!(t.kind, TileKind::Snake(4));
    assert_eq!(t.pos, Position { x: 10, y: 8 });
    assert!(g.board.tile_at(Position { x: -1, y: 8 }).is_none());
    assert!(g.board.tile_at(Position { x: 16, y: 8 }).is_none());
    assert!(g.board.tile_at(Position { x: 3, y: 16 }).is_none());
}

#[test]
fn tile_helpers_track_segments() {
    let g = Game::new(SIDE, LEN, PERIOD);
    assert!(g.board.tiles[idx(6, 8)].is_tail());
    assert!(!g.board.tiles[idx(7, 8)].is_tail());
    assert!(g.board.tiles[idx(10, 8)].is_head(4));
    assert!(!g.board.tiles[idx(10, 8)].is_head(3));
    let mut t = g.board.tiles[idx(11, 8)];
    t.into_head(4);
    assert_eq!(t.kind, TileKind::Snake(5));
}
