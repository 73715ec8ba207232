//! Positions, tile kinds, and the tile record that the board is made of.
use vstd::prelude::*;

verus! {

/// Integer grid coordinate, the unique key of a tile on the board.
#[derive(Clone, Copy, PartialEq, Eq, Structural, Debug)]
pub struct Position {
    pub x: i32,
    pub y: i32,
}

/// What occupies a grid cell. A snake segment carries its body order:
/// index 0 is the tail, the largest index in use is the head.
#[derive(Clone, Copy, PartialEq, Eq, Structural, Debug)]
pub enum TileKind {
    Empty,
    Obstacle,
    Food,
    Snake(u32),
}

/// One grid cell: its kind and its fixed coordinate.
#[derive(Clone, Copy, PartialEq, Eq, Structural, Debug)]
pub struct Tile {
    pub kind: TileKind,
    pub pos: Position,
}

impl Tile {
    /// True exactly when this tile holds the tail segment (index 0).
    pub fn is_tail(&self) -> (r: bool)
        ensures
            r == (self.kind == TileKind::Snake(0)),
    {
        if let TileKind::Snake(i) = self.kind {
            i == 0
        } else {
            false
        }
    }

    /// True exactly when this tile holds the segment with the given index.
    pub fn is_head(&self, index: u32) -> (r: bool)
        ensures
            r == (self.kind == TileKind::Snake(index)),
    {
        if let TileKind::Snake(i) = self.kind {
            i == index
        } else {
            false
        }
    }

    /// Turn this tile into the new head, one index above the given one.
    pub fn into_head(&mut self, index: u32)
        requires
            index < u32::MAX,
        ensures
            final(self).kind == TileKind::Snake((index + 1) as u32),
            final(self).pos == old(self).pos,
    {
        self.kind = TileKind::Snake(index + 1);
    }
}

} // verus!
