//! The texture and animation store: column-major bitmaps looked up by a
//! fixed set of texture names, with frame selection by elapsed time.
//!
//! Loading image files belongs to the caller; this module only holds the
//! decoded pixels as plain values and resolves which bitmap an animation
//! shows at a given time.

use crate::fx::{iabs, lemma_div_abs_bound, lemma_mul_abs_bound, Fx};
use vstd::prelude::*;

verus! {

/// Number of texture names.
pub const N_TEXTURES: usize = 8;

/// Largest admissible magnitude for a point in time (raw units).
pub const TIME_LIMIT: i64 = 0x100_0000_0000;

/// Largest admissible frame rate (raw units).
pub const FPS_LIMIT: i64 = 0x1_0000_0000;

/// Largest admissible animation speed factor (raw units).
pub const SPEED_LIMIT: i64 = 0x10_0000;

/// Largest admissible bitmap width or height, in pixels.
pub const IMAGE_DIM_LIMIT: usize = 0x8000;

/// Largest admissible number of bitmaps in the store.
pub const IMAGE_COUNT_LIMIT: usize = 0x1000;

/// The texture names the renderer knows.
#[derive(Clone, Copy, PartialEq, Eq, Structural, Debug)]
pub enum Texture {
    Wall,
    Window,
    Evil,
    Rick,
    Floor,
    Fungus,
    Door,
    DoorClose,
}

/// The slot a texture name occupies in the store.
pub open spec fn spec_texture_index(t: Texture) -> int {
    match t {
        Texture::Wall => 0,
        Texture::Window => 1,
        Texture::Evil => 2,
        Texture::Rick => 3,
        Texture::Floor => 4,
        Texture::Fungus => 5,
        Texture::Door => 6,
        Texture::DoorClose => 7,
    }
}

impl Texture {
    /// The slot this texture name occupies in the store.
    pub fn index(self) -> (r: usize)
        ensures
            r == spec_texture_index(self),
            r < N_TEXTURES,
    {
        match self {
            Texture::Wall => 0,
            Texture::Window => 1,
            Texture::Evil => 2,
            Texture::Rick => 3,
            Texture::Floor => 4,
            Texture::Fungus => 5,
            Texture::Door => 6,
            Texture::DoorClose => 7,
        }
    }
}

/// Whether an animation repeats or stops on its last frame.
#[derive(Clone, Copy, PartialEq, Eq, Structural, Debug)]
pub enum AnimationKind {
    Looping,
    Clamped,
}

/// An animated-texture descriptor: which texture, when it started, and how
/// its frames advance.
#[derive(Clone, Copy, PartialEq, Eq, Structural, Debug)]
pub struct Animation {
    pub texture: Texture,
    pub start_time: Fx,
    pub speed: Fx,
    pub kind: AnimationKind,
}

impl Animation {
    /// The numeric limits under which frame selection is free of overflow.
    pub open spec fn wf(self) -> bool {
        &&& iabs(self.start_time.raw as int) <= TIME_LIMIT
        &&& 0 <= self.speed.raw <= SPEED_LIMIT
    }

    /// A repeating animation starting at `start_time`, at normal speed.
    pub fn new_loop_with_time(texture: Texture, start_time: Fx) -> (r: Animation)
        ensures
            r == (Animation {
                texture,
                start_time,
                speed: Fx { raw: 65536 },
                kind: AnimationKind::Looping,
            }),
    {
        Animation { texture, start_time, speed: Fx { raw: 65536 }, kind: AnimationKind::Looping }
    }

    /// An animation that stops on its last frame, at normal speed.
    pub fn new_clamp_with_time(texture: Texture, start_time: Fx) -> (r: Animation)
        ensures
            r == (Animation {
                texture,
                start_time,
                speed: Fx { raw: 65536 },
                kind: AnimationKind::Clamped,
            }),
    {
        Animation { texture, start_time, speed: Fx { raw: 65536 }, kind: AnimationKind::Clamped }
    }
}

/// A bitmap stored column by column: pixel `(x, y)` sits at `x * height + y`.
/// A pixel is `None` where the source image was fully transparent.
#[derive(Clone, PartialEq, Eq, Debug)]
pub struct VerticalImage {
    pub width: usize,
    pub height: usize,
    pub pixels: Vec<Option<[u8; 3]>>,
}

impl VerticalImage {
    /// A nonempty bitmap of bounded size whose pixel count matches.
    pub open spec fn wf(self) -> bool {
        &&& 1 <= self.width <= IMAGE_DIM_LIMIT
        &&& 1 <= self.height <= IMAGE_DIM_LIMIT
        &&& self.pixels@.len() == self.width * self.height
    }

    /// The pixel at column `x`, row `y`.
    pub open spec fn spec_pixel(self, x: int, y: int) -> Option<[u8; 3]> {
        self.pixels@[x * self.height + y]
    }

    /// Wraps decoded pixels, or refuses dimensions that do not match them.
    pub fn from_parts(width: usize, height: usize, pixels: Vec<Option<[u8; 3]>>) -> (r: Option<
        VerticalImage,
    >)
        ensures
            (VerticalImage { width, height, pixels }).wf() ==> r == Some(
                VerticalImage { width, height, pixels },
            ),
            !(VerticalImage { width, height, pixels }).wf() ==> r is None,
    {
        if width < 1 || width > IMAGE_DIM_LIMIT || height < 1 || height > IMAGE_DIM_LIMIT {
            return None;
        }
        proof {
            assert(width * height <= 0x4000_0000) by (nonlinear_arith)
                requires
                    width <= 0x8000,
                    height <= 0x8000,
            ;
        }
        if (pixels.len() as u64) == (width as u64) * (height as u64) {
            Some(VerticalImage { width, height, pixels })
        } else {
            None
        }
    }

    pub fn width(&self) -> (r: usize)
        ensures
            r == self.width,
    {
        self.width
    }

    pub fn height(&self) -> (r: usize)
        ensures
            r == self.height,
    {
        self.height
    }

    pub fn pixels(&self) -> (r: &Vec<Option<[u8; 3]>>)
        ensures
            r == self.pixels,
    {
        &self.pixels
    }

    /// The pixel at column `x`, row `y`.
    pub fn pixel(&self, x: usize, y: usize) -> (r: Option<[u8; 3]>)
        requires
            self.wf(),
            x < self.width,
            y < self.height,
        ensures
            r == self.spec_pixel(x as int, y as int),
    {
        proof {
            assert(x * self.height + y < self.width * self.height && x * self.height + y
                < 0x4000_0000) by (nonlinear_arith)
                requires
                    x < self.width,
                    y < self.height,
                    self.width <= 0x8000,
                    self.height <= 0x8000,
            ;
        }
        self.pixels[x * self.height + y]
    }
}

/// Where one texture's frames sit in the store: the index of its first
/// bitmap, how many frames it has, and its frame rate.
#[derive(Clone, Copy, PartialEq, Eq, Structural, Debug)]
pub struct TextureInfo {
    pub id: usize,
    pub n_animation_frames: usize,
    pub fps: Fx,
}

/// The texture store: one `TextureInfo` per texture name, and the flat list
/// of bitmaps they point into.
#[derive(Clone, PartialEq, Eq, Debug)]
pub struct Textures {
    pub textures: Vec<TextureInfo>,
    pub images: Vec<VerticalImage>,
}

impl Textures {
    /// Every texture name resolves to at least one in-range, well-formed
    /// bitmap, with a bounded frame rate.
    pub open spec fn wf(self) -> bool {
        &&& self.textures@.len() == N_TEXTURES
        &&& self.images@.len() <= IMAGE_COUNT_LIMIT
        &&& forall|i: int|
            0 <= i < self.images@.len() ==> (#[trigger] self.images@[i]).wf()
        &&& forall|t: int|
            0 <= t < N_TEXTURES ==> {
                let info = #[trigger] self.textures@[t];
                &&& info.n_animation_frames >= 1
                &&& info.id + info.n_animation_frames <= self.images@.len()
                &&& 0 <= info.fps.raw <= FPS_LIMIT
            }
    }

    /// Wraps a validated store, or refuses one whose slots point outside
    /// the bitmap list.
    pub fn from_parts(textures: Vec<TextureInfo>, images: Vec<VerticalImage>) -> (r: Option<
        Textures,
    >)
        ensures
            (Textures { textures, images }).wf() ==> r == Some(Textures { textures, images }),
            !(Textures { textures, images }).wf() ==> r is None,
    {
        if textures.len() != N_TEXTURES || images.len() > IMAGE_COUNT_LIMIT {
            return None;
        }
        let mut i: usize = 0;
        while i < images.len()
            invariant
                i <= images@.len(),
                forall|j: int| 0 <= j < i ==> (#[trigger] images@[j]).wf(),
            decreases images@.len() - i,
        {
            let im: &VerticalImage = &images[i];
            if im.width < 1 || im.width > IMAGE_DIM_LIMIT || im.height < 1 || im.height
                > IMAGE_DIM_LIMIT {
                return None;
            }
            proof {
                assert(im.width * im.height <= 0x4000_0000) by (nonlinear_arith)
                    requires
                        im.width <= 0x8000,
                        im.height <= 0x8000,
                ;
            }
            if (im.pixels.len() as u64) != (im.width as u64) * (im.height as u64) {
                return None;
            }
            i = i + 1;
        }
        let mut t: usize = 0;
        while t < textures.len()
            invariant
                t <= textures@.len(),
                forall|j: int|
                    0 <= j < t ==> {
                        let info = #[trigger] textures@[j];
                        &&& info.n_animation_frames >= 1
                        &&& info.id + info.n_animation_frames <= images@.len()
                        &&& 0 <= info.fps.raw <= FPS_LIMIT
                    },
            decreases textures@.len() - t,
        {
            let info: TextureInfo = textures[t];
            if !(info.n_animation_frames >= 1 && info.id <= images.len()
                && info.n_animation_frames <= images.len() - info.id && 0 <= info.fps.raw
                && info.fps.raw <= FPS_LIMIT) {
                return None;
            }
            t = t + 1;
        }
        Some(Textures { textures, images })
    }

    /// The first bitmap of a texture.
    pub fn get(&self, texture: Texture) -> (r: &VerticalImage)
        requires
            self.wf(),
        ensures
            r == self.images@[self.textures@[spec_texture_index(texture)].id as int],
            r.wf(),
    {
        &self.images[self.textures[texture.index()].id]
    }

    /// The bitmap index an animation shows at `time`: elapsed time times
    /// frame rate times speed, floored to a frame count, then wrapped
    /// (looping) or clamped to the last frame.
    pub open spec fn spec_anim_index(self, animation: Animation, time: Fx) -> int {
        let info = self.textures@[spec_texture_index(animation.texture)];
        let dt: int = time.raw - animation.start_time.raw;
        let n1: int = (dt * info.fps.raw) / 65536int;
        let n2: int = (n1 * animation.speed.raw) / 65536int;
        let f: int = n2 / 65536int;
        let fc: int = if f < 0 {
            0
        } else {
            f
        };
        let frame: int = match animation.kind {
            AnimationKind::Looping => fc % (info.n_animation_frames as int),
            AnimationKind::Clamped => if fc < info.n_animation_frames - 1 {
                fc
            } else {
                info.n_animation_frames - 1
            },
        };
        info.id + frame
    }

    /// The index of the bitmap `animation` shows at `time`.
    pub fn get_anim_index(&self, animation: &Animation, time: Fx) -> (r: usize)
        requires
            self.wf(),
            animation.wf(),
            iabs(time.raw as int) <= TIME_LIMIT,
        ensures
            r == self.spec_anim_index(*animation, time),
            r < self.images@.len(),
    {
        let info: TextureInfo = self.textures[animation.texture.index()];
        let dt: Fx = time.sub(animation.start_time);
        proof {
            lemma_mul_abs_bound(dt.raw as int, info.fps.raw as int, 2 * TIME_LIMIT as int, FPS_LIMIT as int);
            lemma_div_abs_bound(dt.raw * info.fps.raw, 2 * (TIME_LIMIT as int) * (FPS_LIMIT as int), 65536int);
        }
        let n1: Fx = dt.mul(info.fps);
        proof {
            lemma_mul_abs_bound(
                n1.raw as int,
                animation.speed.raw as int,
                2 * (TIME_LIMIT as int) * (FPS_LIMIT as int) / 65536int,
                SPEED_LIMIT as int,
            );
            lemma_div_abs_bound(
                n1.raw * animation.speed.raw,
                2 * (TIME_LIMIT as int) * (FPS_LIMIT as int) / 65536int * (SPEED_LIMIT as int),
                65536int,
            );
        }
        let n2: Fx = n1.mul(animation.speed);
        let f: i64 = n2.floor_int();
        let fc: i64 = if f < 0 {
            0
        } else {
            f
        };
        let frame: usize = match animation.kind {
            AnimationKind::Looping => ((fc as u64) % (info.n_animation_frames as u64)) as usize,
            AnimationKind::Clamped => {
                let last: usize = info.n_animation_frames - 1;
                if (fc as u64) < (last as u64) {
                    fc as usize
                } else {
                    last
                }
            },
        };
        info.id + frame
    }

    /// The bitmap an animation shows at `time`.
    pub fn get_anim(&self, animation: &Animation, time: Fx) -> (r: &VerticalImage)
        requires
            self.wf(),
            animation.wf(),
            iabs(time.raw as int) <= TIME_LIMIT,
        ensures
            r == self.images@[self.spec_anim_index(*animation, time)],
            r.wf(),
    {
        let i: usize = self.get_anim_index(animation, time);
        &self.images[i]
    }
}

} // verus!
