//! Building blocks of world generation: the tile vocabulary a room
//! blueprint is written in, and the four grid directions.
//!
//! The generator itself (room placement and blueprint files) belongs to
//! the world-building collaborator outside this crate; the renderer only
//! consumes the finished `TileMap`.

use vstd::prelude::*;

verus! {

/// The tile vocabulary of a room blueprint.
#[derive(Clone, Copy, PartialEq, Eq, Structural, Debug)]
pub enum GenTileKind {
    Floor,
    Wall,
    Window,
    Door,
}

/// A blueprint tile: its kind, and optionally the kind it changes into
/// when the room connects to a neighbour in a given direction.
#[derive(Clone, Copy, PartialEq, Eq, Debug)]
pub struct GenTile {
    pub kind: GenTileKind,
    pub change_if: Option<(GenTileKind, Direction)>,
}

impl GenTile {
    /// A plain blueprint tile.
    pub fn new(kind: GenTileKind) -> (r: Self)
        ensures
            r == (GenTile { kind, change_if: None::<(GenTileKind, Direction)> }),
    {
        GenTile { kind, change_if: None }
    }

    /// The same tile, changing into `kind` when the room connects in
    /// direction `dir`.
    pub fn change_if(self, kind: GenTileKind, dir: Direction) -> (r: Self)
        ensures
            r == (GenTile { kind: self.kind, change_if: Some((kind, dir)) }),
    {
        GenTile { kind: self.kind, change_if: Some((kind, dir)) }
    }
}

/// A grid direction.
#[derive(Clone, Copy, PartialEq, Eq, Structural, Debug)]
pub enum Direction {
    Up,
    Down,
    Left,
    Right,
}

impl Direction {
    /// The opposite direction.
    pub fn inverted(self) -> (r: Direction)
        ensures
            r == match self {
                Direction::Up => Direction::Down,
                Direction::Down => Direction::Up,
                Direction::Left => Direction::Right,
                Direction::Right => Direction::Left,
            },
    {
        match self {
            Direction::Up => Direction::Down,
            Direction::Down => Direction::Up,
            Direction::Left => Direction::Right,
            Direction::Right => Direction::Left,
        }
    }

    /// The unit step this direction takes on the grid.
    pub fn to_vec(self) -> (r: (i64, i64))
        ensures
            r == match self {
                Direction::Up => (0i64, -1i64),
                Direction::Down => (0i64, 1i64),
                Direction::Left => (-1i64, 0i64),
                Direction::Right => (1i64, 0i64),
            },
    {
        match self {
            Direction::Up => (0, -1),
            Direction::Down => (0, 1),
            Direction::Left => (-1, 0),
            Direction::Right => (1, 0),
        }
    }
}

} // verus!
