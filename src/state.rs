use vstd::prelude::*;

use crate::map::TileMap;
use crate::render::{fits_stride, frame_commands, DrawCommand};

verus! {

/// The spacing of adjacent cells before projection.
pub const CELL_STRIDE: i32 = 32;

/// The camera: the point it looks at and the size of its viewport. It moves
/// the whole drawing and leaves the projection of each cell alone.
#[derive(Clone, Copy, Debug, PartialEq, Eq, Structural)]
pub struct CameraState {
    pub x: i32,
    pub y: i32,
    pub viewport_width: i32,
    pub viewport_height: i32,
}

/// What one frame draws: the camera to draw through, and the tiles in
/// order.
pub struct Frame {
    pub camera: CameraState,
    pub commands: Vec<DrawCommand>,
}

/// The running scene: a camera and a loaded map.
pub struct GameState {
    camera: CameraState,
    map: TileMap,
}

impl GameState {
    pub closed spec fn camera_spec(&self) -> CameraState {
        self.camera
    }

    pub closed spec fn map_spec(&self) -> TileMap {
        self.map
    }

    pub open spec fn wf(&self) -> bool {
        &&& self.map_spec().wf()
        &&& fits_stride(self.map_spec().grid_spec().rows_spec() as int, CELL_STRIDE as int)
        &&& fits_stride(self.map_spec().grid_spec().cols_spec() as int, CELL_STRIDE as int)
    }

    /// The commands that a frame of this scene draws.
    pub open spec fn frame_spec(&self) -> Seq<DrawCommand> {
        frame_commands(self.map_spec(), CELL_STRIDE as int)
    }

    /// The scene once the viewport is `width` by `height`.
    pub closed spec fn resized(self, width: i32, height: i32) -> GameState {
        GameState {
            camera: CameraState {
                viewport_width: width,
                viewport_height: height,
                ..self.camera
            },
            map: self.map,
        }
    }

    /// The scene at start: the camera looks at (32, 48) through a 640 by 480
    /// viewport.
    pub fn new(map: TileMap) -> (r: GameState)
        requires
            map.wf(),
            fits_stride(map.grid_spec().rows_spec() as int, CELL_STRIDE as int),
            fits_stride(map.grid_spec().cols_spec() as int, CELL_STRIDE as int),
        ensures
            r.wf(),
            r.map_spec() == map,
            r.camera_spec() == (CameraState { x: 32, y: 48, viewport_width: 640, viewport_height: 480 }),
    {
        GameState {
            camera: CameraState { x: 32, y: 48, viewport_width: 640, viewport_height: 480 },
            map,
        }
    }

    pub fn camera(&self) -> (r: CameraState)
        ensures
            r == self.camera_spec(),
    {
        self.camera
    }

    pub fn map(&self) -> (r: &TileMap)
        ensures
            *r == self.map_spec(),
    {
        &self.map
    }

    /// One frame: the camera, and every tile of the map in painter's order.
    pub fn draw(&self) -> (f: Frame)
        requires
            self.wf(),
        ensures
            f.camera == self.camera_spec(),
            f.commands@ == self.frame_spec(),
    {
        Frame { camera: self.camera, commands: self.map.render(CELL_STRIDE) }
    }

    /// Takes the new size of the viewport; the next frame draws through it.
    pub fn on_viewport_resized(&mut self, width: i32, height: i32)
        ensures
            *final(self) == old(self).resized(width, height),
            final(self).map_spec() == old(self).map_spec(),
            final(self).camera_spec() == (CameraState {
                viewport_width: width,
                viewport_height: height,
                ..old(self).camera_spec()
            }),
    {
        self.camera.viewport_width = width;
        self.camera.viewport_height = height;
    }
}

/// Resizing the viewport changes the camera's viewport and nothing else: the
/// camera's position stays, the map (its registry and grid) is untouched, and
/// the next frame draws the same tiles at the same projected positions.
pub proof fn lemma_resize_keeps_projection(s: GameState, width: i32, height: i32)
    requires
        s.wf(),
    ensures
        s.resized(width, height).wf(),
        s.resized(width, height).camera_spec().viewport_width == width,
        s.resized(width, height).camera_spec().viewport_height == height,
        s.resized(width, height).camera_spec().x == s.camera_spec().x,
        s.resized(width, height).camera_spec().y == s.camera_spec().y,
        s.resized(width, height).map_spec() == s.map_spec(),
        s.resized(width, height).frame_spec() == s.frame_spec(),
{
}

} // verus!
