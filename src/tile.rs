use std::collections::HashMap;
use vstd::prelude::*;

use crate::error::MapError;

verus! {

broadcast use vstd::std_specs::hash::group_hash_axioms;

/// A rectangle in the source image, in pixels.
#[derive(Clone, Copy, Debug, PartialEq, Eq, Structural)]
pub struct Rect {
    pub x: i32,
    pub y: i32,
    pub width: i32,
    pub height: i32,
}

/// A 2-D offset, in pixels.
#[derive(Clone, Copy, Debug, PartialEq, Eq, Structural)]
pub struct Point {
    pub x: i32,
    pub y: i32,
}

/// How one tile code is drawn: the region of the shared source image, and the
/// anchor offset subtracted from the draw position (so that art taller than
/// one cell, such as a tree, stands on its cell).
#[derive(Clone, Copy, Debug, PartialEq, Eq, Structural)]
pub struct Tile {
    pub clip: Rect,
    pub origin: Point,
}

/// The tiles of one map, by code, all cut from one source image.
pub struct TileRegistry {
    image: String,
    tiles: HashMap<i32, Tile>,
}

impl View for TileRegistry {
    type V = Map<i32, Tile>;

    closed spec fn view(&self) -> Map<i32, Tile> {
        self.tiles@
    }
}

impl TileRegistry {
    /// The reference to the source image.
    pub closed spec fn image_spec(&self) -> Seq<char> {
        self.image@
    }

    /// A registry with no tile, over the given source image.
    pub fn new(image: String) -> (r: TileRegistry)
        ensures
            r@ == Map::<i32, Tile>::empty(),
            r.image_spec() == image@,
    {
        TileRegistry { image, tiles: HashMap::new() }
    }

    /// The reference to the source image that every tile is cut from.
    pub fn image(&self) -> (r: &String)
        ensures
            r@ == self.image_spec(),
    {
        &self.image
    }

    /// Enters `tile` under `code`; an earlier entry under the same code is
    /// replaced.
    pub fn register(&mut self, code: i32, tile: Tile)
        ensures
            final(self)@ == old(self)@.insert(code, tile),
            final(self).image_spec() == old(self).image_spec(),
    {
        self.tiles.insert(code, tile);
    }

    /// Whether a tile is registered under `code`.
    pub fn contains(&self, code: i32) -> (r: bool)
        ensures
            r == self@.contains_key(code),
    {
        self.tiles.contains_key(&code)
    }

    /// The tile registered under `code`, which has one.
    pub fn tile(&self, code: i32) -> (r: Tile)
        requires
            self@.contains_key(code),
        ensures
            r == self@[code],
    {
        *self.tiles.get(&code).unwrap()
    }

    /// The tile registered under `code`.
    pub fn resolve(&self, code: i32) -> (r: Result<Tile, MapError>)
        ensures
            self@.contains_key(code) ==> r == Ok::<Tile, MapError>(self@[code]),
            !self@.contains_key(code) ==> r == Err::<Tile, MapError>(MapError::UnknownTileCode(code)),
    {
        match self.tiles.get(&code) {
            Some(t) => Ok(*t),
            None => Err(MapError::UnknownTileCode(code)),
        }
    }
}

} // verus!
