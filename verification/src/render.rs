//! The renderer: the world image and shadow map built once from the map, and
//! the per-frame composition of the camera's view with moving sprites.

use crate::atlas::{Atlas, Frame};
use crate::blit::{
    blit_opaque, blit_unit, blit_unit_shadow, blit_world_shadow, deepened, opaque_blit,
    read_shadow, shadow_at, unit_blit, unit_shadow_image, unit_shadow_mask, visible_pixel,
    world_shadow_covers, world_shadow_image, world_shadow_map, SHADOW_CAP, SHADOW_STEP,
    WORLD_LIMIT,
};
use crate::camera::Camera;
use crate::color::alpha_of;
use crate::gamemap::{GameMap, Object, Tile};
use crate::grid::{
    cell, cell_index, col_of, in_grid, lemma_cell, lemma_index, row_of, scanned_cell,
};
use crate::pass::{
    lemma_world_shadow_pass, opaque_pass, run_opaque_pass, run_unit_pass, run_unit_shadow_pass,
    run_world_shadow_pass, unit_pass, unit_shadow_pass, world_shadow_pass,
};
use crate::scene::{
    copy_view, entity_order, object_items, object_stamps, ordered_entity_stamps,
    ordered_map_stamps, screen_stamps, tile_items, tile_stamps, viewport,
};
use vstd::prelude::*;

verus! {

/// A sprite to draw this frame: a world position in sub-pixel units and the
/// name of its frame in the entity atlas.
#[derive(Debug)]
pub struct RenderableEntity {
    /// World x, in sub-pixel units.
    pub x: i32,
    /// World y, in sub-pixel units.
    pub y: i32,
    /// Name of the sprite's frame.
    pub sprite_name: String,
}

impl Clone for RenderableEntity {
    fn clone(&self) -> (r: Self)
        ensures
            r == *self,
    {
        RenderableEntity { x: self.x, y: self.y, sprite_name: self.sprite_name.clone() }
    }
}

impl RenderableEntity {
    /// An entity at `(x, y)` drawn with the frame `sprite_name`.
    pub fn new(x: i32, y: i32, sprite_name: String) -> (entity: Self)
        ensures
            entity == (RenderableEntity { x, y, sprite_name }),
    {
        RenderableEntity { x, y, sprite_name }
    }

    /// An entity at `(x, y)` drawn with the frame `sprite_name`.
    pub fn with_sprite(x: i32, y: i32, sprite_name: &str) -> (entity: Self)
        ensures
            entity.x == x,
            entity.y == y,
            entity.sprite_name@ == sprite_name@,
    {
        RenderableEntity { x, y, sprite_name: sprite_name.to_owned() }
    }
}

/// The renderer's state: the finished world image, the shadow map beside it,
/// and the mask of this frame's unit shadows.
pub struct Render {
    /// Atlas of the moving sprites.
    pub entity_atlas: Atlas,
    /// Height of the world in pixels.
    pub world_height: usize,
    /// Width of the world in pixels.
    pub world_width: usize,
    /// The world image, one packed pixel per world pixel.
    pub world_buf: Vec<u32>,
    /// Shadow strength of every world pixel.
    pub shadow_map: Vec<u8>,
    /// Where a unit's shadow already fell in the current frame.
    pub dynamic_shadow_buf: Vec<u8>,
}

/// What one cast does to a shadow-map entry: it is deepened once, which
/// leaves it above zero and at most at the cap, and lifts an entry without
/// shadow to one step.
pub open spec fn cast_once(before: u8, after: u8) -> bool {
    &&& after == deepened(before)
    &&& 0 < after <= SHADOW_CAP
    &&& before == 0 ==> after == SHADOW_STEP
}

/// Sum of the nine shadow-map entries around index `k` of a map `w` wide.
pub open spec fn neighbourhood_sum(map: Seq<u8>, w: int, k: int) -> int {
    map[k - w - 1] + map[k - w] + map[k - w + 1] + map[k - 1] + map[k] + map[k + 1] + map[k + w
        - 1] + map[k + w] + map[k + w + 1]
}

/// Whether `(x, y)` has all eight neighbours inside a `w` by `h` grid.
pub open spec fn is_interior(w: int, h: int, x: int, y: int) -> bool {
    1 <= x < w - 1 && 1 <= y < h - 1
}

/// One entry of the blurred shadow map: a shadowed entry away from the edge
/// becomes the mean of its 3 by 3 neighbourhood, rounded down; every other
/// entry stays.
pub open spec fn blurred_entry(map: Seq<u8>, w: int, h: int, k: int) -> u8 {
    if is_interior(w, h, col_of(w, k), row_of(w, k)) && map[k] > 0 {
        (neighbourhood_sum(map, w, k) / 9) as u8
    } else {
        map[k]
    }
}

/// The shadow map after one 3 by 3 box blur of its shadowed entries.
pub open spec fn blurred(map: Seq<u8>, w: int, h: int) -> Seq<u8> {
    Seq::new(map.len(), |k: int| blurred_entry(map, w, h, k))
}

/// The eight neighbours of an interior cell are cells of the grid, one row
/// and one column away in the buffer.
pub proof fn lemma_neighbours(w: int, h: int, x: int, y: int)
    requires
        is_interior(w, h, x, y),
    ensures
        w + 1 <= cell(w, x, y) < w * h - w - 1,
{
    lemma_cell(w, h, x - 1, y - 1);
    lemma_cell(w, h, x + 1, y + 1);
    assert(cell(w, x - 1, y - 1) == cell(w, x, y) - w - 1) by (nonlinear_arith);
    assert(cell(w, x + 1, y + 1) == cell(w, x, y) + w + 1) by (nonlinear_arith);
}

/// A blur keeps every entry at or below the largest entry of the map.
pub proof fn lemma_blurred_bound(map: Seq<u8>, w: int, h: int, bound: u8, k: int)
    requires
        map.len() == w * h,
        0 <= w,
        0 <= h,
        0 <= k < map.len(),
        forall|i: int| 0 <= i < map.len() ==> #[trigger] map[i] <= bound,
    ensures
        blurred(map, w, h)[k] <= bound,
{
    lemma_index(w, h, k);
    if is_interior(w, h, col_of(w, k), row_of(w, k)) {
        lemma_neighbours(w, h, col_of(w, k), row_of(w, k));
        assert(neighbourhood_sum(map, w, k) <= 9 * bound);
    }
}

/// Why a frame was not rendered.
#[derive(Clone, Copy, Debug, PartialEq, Eq, Structural)]
pub enum RenderError {
    /// The output buffer does not hold one pixel per viewport pixel.
    BufferSize,
}

/// World image and shadow map after the world was built from a map: the
/// tiles are copied in drawing order, every object casts its shadow in
/// drawing order, the shadow map is blurred once, and the objects are copied
/// on top in drawing order.
pub open spec fn built(
    world: Seq<u32>,
    shadow: Seq<u8>,
    w: int,
    h: int,
    atlas: Atlas,
    tiles: Seq<Tile>,
    objects: Seq<Object>,
) -> (Seq<u32>, Seq<u8>) {
    let tile_list = ordered_map_stamps(atlas, tile_items(tiles), w, h);
    let object_list = ordered_map_stamps(atlas, object_items(objects), w, h);
    let ground = opaque_pass(world, w, atlas.image, tile_list, tile_list.len());
    let shaded = world_shadow_pass(ground, shadow, w, atlas.image, object_list, object_list.len());
    (
        opaque_pass(shaded.0, w, atlas.image, object_list, object_list.len()),
        blurred(shaded.1, w, h),
    )
}

/// A mask of `n` entries without any mark.
pub open spec fn clear_mask(n: nat) -> Seq<u8> {
    Seq::new(n, |k: int| 0u8)
}

/// Output image and shadow mask of one frame: the camera's window on the
/// world, then the shadows of all entities in depth order, then the sprites
/// of all entities in depth order.
pub open spec fn composed(
    render: Render,
    entities: Seq<RenderableEntity>,
    camera: Camera,
) -> (Seq<u32>, Seq<u8>) {
    let atlas = render.entity_atlas;
    let w = render.world_width as int;
    let h = render.world_height as int;
    let shadows = ordered_entity_stamps(atlas, entities, camera, true);
    let units = ordered_entity_stamps(atlas, entities, camera, false);
    let shaded = unit_shadow_pass(
        viewport(render.world_buf@, w, h, camera),
        clear_mask(render.dynamic_shadow_buf@.len()),
        camera.width as int,
        camera.height as int,
        render.shadow_map@,
        w,
        h,
        atlas.image,
        shadows,
        camera.origin_x(),
        camera.origin_y(),
        shadows.len(),
    );
    (
        unit_pass(
            shaded.0,
            camera.width as int,
            render.shadow_map@,
            w,
            h,
            atlas.image,
            units,
            camera.origin_x(),
            camera.origin_y(),
            units.len(),
        ),
        shaded.1,
    )
}

impl Render {
    /// The three buffers hold one entry per world pixel, the world fits signed
    /// 32-bit coordinates, and the entity atlas is well formed.
    pub open spec fn wf(&self) -> bool {
        &&& self.entity_atlas.wf()
        &&& self.world_width <= WORLD_LIMIT
        &&& self.world_height <= WORLD_LIMIT
        &&& self.world_buf@.len() == self.world_width * self.world_height
        &&& self.shadow_map@.len() == self.world_width * self.world_height
        &&& self.dynamic_shadow_buf@.len() == self.world_width * self.world_height
    }

    /// Whether `other` differs from `self` in the world image and the shadow
    /// map at most.
    pub open spec fn same_frame_state(&self, other: &Render) -> bool {
        &&& other.entity_atlas == self.entity_atlas
        &&& other.world_width == self.world_width
        &&& other.world_height == self.world_height
        &&& other.dynamic_shadow_buf == self.dynamic_shadow_buf
    }

    /// Creates a renderer over a world image and a shadow map of
    /// `width * height` entries each.
    pub fn new(
        world_buf: Vec<u32>,
        height: usize,
        width: usize,
        entity_atlas: Atlas,
        shadow: Vec<u8>,
    ) -> (render: Self)
        requires
            entity_atlas.wf(),
            width <= WORLD_LIMIT,
            height <= WORLD_LIMIT,
            world_buf@.len() == width * height,
            shadow@.len() == width * height,
        ensures
            render.wf(),
            render.entity_atlas == entity_atlas,
            render.world_width == width,
            render.world_height == height,
            render.world_buf == world_buf,
            render.shadow_map == shadow,
            render.dynamic_shadow_buf@ == Seq::new((width * height) as nat, |k: int| 0u8),
    {
        let mask: Vec<u8> = vec![0u8; world_buf.len()];
        assert(mask@ =~= Seq::new((width * height) as nat, |k: int| 0u8));
        Render {
            world_buf,
            entity_atlas,
            shadow_map: shadow,
            world_height: height,
            world_width: width,
            dynamic_shadow_buf: mask,
        }
    }

    /// Shadow strength at world position `(x, y)`, out of 255.
    pub open spec fn shadow_intensity(&self, x: int, y: int) -> u8 {
        shadow_at(self.shadow_map@, self.world_width as int, self.world_height as int, x, y)
    }

    /// Gets the shadow strength at world coordinates, out of 255; outside the
    /// world there is no shadow.
    pub fn get_shadow_intensity(&self, world_x: i32, world_y: i32) -> (v: u8)
        requires
            self.wf(),
        ensures
            v == self.shadow_intensity(world_x as int, world_y as int),
    {
        read_shadow(
            &self.shadow_map,
            self.world_width,
            self.world_height,
            world_x as i128,
            world_y as i128,
        )
    }

    /// Copies the visible pixels of a tile's frame into the world image, the
    /// frame's top-left corner at `(screen_x, screen_y)`.
    pub fn render_tile(&mut self, frame: &Frame, screen_x: i32, screen_y: i32, atlas: &Atlas)
        requires
            old(self).wf(),
        ensures
            final(self).wf(),
            old(self).same_frame_state(final(self)),
            final(self).shadow_map == old(self).shadow_map,
            final(self).world_buf@ == opaque_blit(
                old(self).world_buf@,
                old(self).world_width as int,
                atlas.image,
                *frame,
                screen_x as int,
                screen_y as int,
            ),
            forall|x: int, y: int|
                in_grid(old(self).world_width as int, old(self).world_height as int, x, y)
                    && visible_pixel(atlas.image, *frame, x - screen_x, y - screen_y) is Some
                    ==> alpha_of(
                    #[trigger] final(self).world_buf@[cell(old(self).world_width as int, x, y)],
                ) > 0,
    {
        let w = self.world_width;
        let h = self.world_height;
        blit_opaque(&mut self.world_buf, w, h, atlas, frame, screen_x as i128, screen_y as i128);
        proof {
            assert forall|x: int, y: int|
                in_grid(w as int, h as int, x, y) && visible_pixel(
                    atlas.image,
                    *frame,
                    x - screen_x,
                    y - screen_y,
                ) is Some implies alpha_of(#[trigger] self.world_buf@[cell(w as int, x, y)])
                > 0 by {
                lemma_cell(w as int, h as int, x, y);
            }
        }
    }

    /// Copies the visible pixels of an object's frame into the world image,
    /// the frame's top-left corner at `(screen_x, screen_y)`.
    pub fn render_object(&mut self, frame: &Frame, screen_x: i32, screen_y: i32, atlas: &Atlas)
        requires
            old(self).wf(),
        ensures
            final(self).wf(),
            old(self).same_frame_state(final(self)),
            final(self).shadow_map == old(self).shadow_map,
            final(self).world_buf@ == opaque_blit(
                old(self).world_buf@,
                old(self).world_width as int,
                atlas.image,
                *frame,
                screen_x as int,
                screen_y as int,
            ),
            forall|x: int, y: int|
                in_grid(old(self).world_width as int, old(self).world_height as int, x, y)
                    && visible_pixel(atlas.image, *frame, x - screen_x, y - screen_y) is Some
                    ==> alpha_of(
                    #[trigger] final(self).world_buf@[cell(old(self).world_width as int, x, y)],
                ) > 0,
    {
        self.render_tile(frame, screen_x, screen_y, atlas)
    }

    /// Casts the shadow of an object's frame at `(screen_x, screen_y)`: the
    /// shadow map is deepened under the shadow and the world image darkened.
    pub fn render_shadow(&mut self, frame: &Frame, screen_x: i32, screen_y: i32, atlas: &Atlas)
        requires
            old(self).wf(),
        ensures
            final(self).wf(),
            old(self).same_frame_state(final(self)),
            final(self).shadow_map@ == world_shadow_map(
                old(self).shadow_map@,
                old(self).world_width as int,
                atlas.image,
                *frame,
                screen_x as int,
                screen_y as int,
            ),
            final(self).world_buf@ == world_shadow_image(
                old(self).world_buf@,
                old(self).shadow_map@,
                old(self).world_width as int,
                atlas.image,
                *frame,
                screen_x as int,
                screen_y as int,
            ),
            forall|x: int, y: int|
                #![trigger cell(old(self).world_width as int, x, y)]
                in_grid(old(self).world_width as int, old(self).world_height as int, x, y)
                    && world_shadow_covers(
                    atlas.image,
                    *frame,
                    screen_x as int,
                    screen_y as int,
                    x,
                    y,
                ) ==> cast_once(
                    old(self).shadow_map@[cell(old(self).world_width as int, x, y)],
                    final(self).shadow_map@[cell(old(self).world_width as int, x, y)],
                ),
            forall|k: int|
                0 <= k < old(self).shadow_map@.len() && old(self).shadow_map@[k] <= SHADOW_CAP
                    ==> #[trigger] final(self).shadow_map@[k] <= SHADOW_CAP,
    {
        let w = self.world_width;
        let h = self.world_height;
        blit_world_shadow(
            &mut self.world_buf,
            &mut self.shadow_map,
            w,
            h,
            atlas,
            frame,
            screen_x as i128,
            screen_y as i128,
        );
        proof {
            assert forall|x: int, y: int|
                #![trigger cell(w as int, x, y)]
                in_grid(w as int, h as int, x, y) && world_shadow_covers(
                    atlas.image,
                    *frame,
                    screen_x as int,
                    screen_y as int,
                    x,
                    y,
                ) implies cast_once(
                old(self).shadow_map@[cell(w as int, x, y)],
                self.shadow_map@[cell(w as int, x, y)],
            ) by {
                lemma_cell(w as int, h as int, x, y);
            }
        }
    }

    /// Blends the visible pixels of a unit's frame into the output buffer,
    /// the frame's top-left corner at screen position `(screen_x, screen_y)`.
    /// Each pixel is dimmed by the shadow map under it.
    pub fn render_unit(
        &self,
        frame: &Frame,
        screen_x: i32,
        screen_y: i32,
        buf: &mut Vec<u32>,
        camera: &Camera,
    )
        requires
            self.wf(),
            old(buf)@.len() == camera.area(),
        ensures
            final(buf)@ == unit_blit(
                old(buf)@,
                camera.width as int,
                self.entity_atlas.image,
                *frame,
                screen_x as int,
                screen_y as int,
                self.shadow_map@,
                self.world_width as int,
                self.world_height as int,
                camera.origin_x(),
                camera.origin_y(),
            ),
            forall|x: int, y: int|
                in_grid(camera.width as int, camera.height as int, x, y) && visible_pixel(
                    self.entity_atlas.image,
                    *frame,
                    x - screen_x,
                    y - screen_y,
                ) is Some ==> alpha_of(#[trigger] final(buf)@[cell(camera.width as int, x, y)])
                    == 255,
    {
        let ox = camera.sprite_origin_x();
        let oy = camera.sprite_origin_y();
        blit_unit(
            buf,
            camera.width as usize,
            camera.height as usize,
            &self.entity_atlas,
            frame,
            screen_x as i128,
            screen_y as i128,
            &self.shadow_map,
            self.world_width,
            self.world_height,
            ox,
            oy,
        );
        proof {
            assert forall|x: int, y: int|
                in_grid(camera.width as int, camera.height as int, x, y) && visible_pixel(
                    self.entity_atlas.image,
                    *frame,
                    x - screen_x,
                    y - screen_y,
                ) is Some implies alpha_of(#[trigger] buf@[cell(camera.width as int, x, y)])
                == 255 by {
                lemma_cell(camera.width as int, camera.height as int, x, y);
            }
        }
    }

    /// Casts the shadow of a unit's frame at screen position
    /// `(screen_x, screen_y)`: the output is darkened where the shadow falls,
    /// unless a static shadow or an earlier unit's shadow lies there, and the
    /// mask records where it fell.
    pub fn render_shadow_unit(
        &mut self,
        frame: &Frame,
        screen_x: i32,
        screen_y: i32,
        buf: &mut Vec<u32>,
        camera: &Camera,
    )
        requires
            old(self).wf(),
            old(buf)@.len() == camera.area(),
        ensures
            final(self).wf(),
            final(self).entity_atlas == old(self).entity_atlas,
            final(self).world_width == old(self).world_width,
            final(self).world_height == old(self).world_height,
            final(self).world_buf == old(self).world_buf,
            final(self).shadow_map == old(self).shadow_map,
            final(self).dynamic_shadow_buf@ == unit_shadow_mask(
                old(self).dynamic_shadow_buf@,
                old(self).world_width as int,
                camera.width as int,
                camera.height as int,
                old(self).entity_atlas.image,
                *frame,
                screen_x as int,
                screen_y as int,
                camera.origin_x(),
                camera.origin_y(),
            ),
            final(buf)@ == unit_shadow_image(
                old(buf)@,
                camera.width as int,
                old(self).dynamic_shadow_buf@,
                old(self).shadow_map@,
                old(self).world_width as int,
                old(self).world_height as int,
                old(self).entity_atlas.image,
                *frame,
                screen_x as int,
                screen_y as int,
                camera.origin_x(),
                camera.origin_y(),
            ),
    {
        let ox = camera.sprite_origin_x();
        let oy = camera.sprite_origin_y();
        let w = self.world_width;
        let h = self.world_height;
        blit_unit_shadow(
            buf,
            &mut self.dynamic_shadow_buf,
            camera.width as usize,
            camera.height as usize,
            &self.entity_atlas,
            frame,
            screen_x as i128,
            screen_y as i128,
            &self.shadow_map,
            w,
            h,
            ox,
            oy,
        );
    }

    /// Soft blur of the shadow map: every shadowed entry away from the edge
    /// becomes the mean of its 3 by 3 neighbourhood in the map as it was.
    pub fn soft_blur_shadows(&mut self)
        requires
            old(self).wf(),
        ensures
            final(self).wf(),
            old(self).same_frame_state(final(self)),
            final(self).world_buf == old(self).world_buf,
            final(self).shadow_map@ == blurred(
                old(self).shadow_map@,
                old(self).world_width as int,
                old(self).world_height as int,
            ),
            (forall|k: int|
                0 <= k < old(self).shadow_map@.len() ==> #[trigger] old(self).shadow_map@[k]
                    <= SHADOW_CAP) ==> (forall|k: int|
                0 <= k < final(self).shadow_map@.len() ==> #[trigger] final(self).shadow_map@[k]
                    <= SHADOW_CAP),
    {
        let w = self.world_width;
        let h = self.world_height;
        let ghost map = self.shadow_map@;
        let mut out: Vec<u8> = self.shadow_map.clone();
        assert(out@ =~= map);
        let mut y: usize = 1;
        while y + 1 < h
            invariant
                1 <= y <= WORLD_LIMIT,
                w <= WORLD_LIMIT,
                h <= WORLD_LIMIT,
                map == self.shadow_map@,
                map.len() == w * h,
                out@.len() == map.len(),
                forall|k: int|
                    0 <= k < map.len() ==> #[trigger] out@[k] == (if scanned_cell(
                        w as int,
                        k,
                        0,
                        y as int,
                    ) {
                        blurred_entry(map, w as int, h as int, k)
                    } else {
                        map[k]
                    }),
            decreases h - y,
        {
            let mut x: usize = 1;
            proof {
                assert forall|k: int| 0 <= k < map.len() implies #[trigger] out@[k] == (
                if scanned_cell(w as int, k, 1, y as int) {
                    blurred_entry(map, w as int, h as int, k)
                } else {
                    map[k]
                }) by {
                    lemma_index(w as int, h as int, k);
                }
            }
            while x + 1 < w
                invariant
                    1 <= x <= WORLD_LIMIT,
                    1 <= y,
                    y + 1 < h,
                    w <= WORLD_LIMIT,
                    h <= WORLD_LIMIT,
                    map == self.shadow_map@,
                    map.len() == w * h,
                    out@.len() == map.len(),
                    forall|k: int|
                        0 <= k < map.len() ==> #[trigger] out@[k] == (if scanned_cell(
                            w as int,
                            k,
                            x as int,
                            y as int,
                        ) {
                            blurred_entry(map, w as int, h as int, k)
                        } else {
                            map[k]
                        }),
                decreases w - x,
            {
                let ghost mid = out@;
                proof {
                    lemma_neighbours(w as int, h as int, x as int, y as int);
                    lemma_cell(w as int, h as int, x as int, y as int);
                }
                assert(self.shadow_map@.len() <= usize::MAX) by {
                    vstd::std_specs::vec::axiom_spec_len(&self.shadow_map);
                }
                let idx = cell_index(w, h, x, y);
                if self.shadow_map[idx] > 0 {
                    let sum: u32 = self.shadow_map[idx - w - 1] as u32 + self.shadow_map[idx
                        - w] as u32 + self.shadow_map[idx - w + 1] as u32 + self.shadow_map[idx
                        - 1] as u32 + self.shadow_map[idx] as u32 + self.shadow_map[idx
                        + 1] as u32 + self.shadow_map[idx + w - 1] as u32 + self.shadow_map[idx
                        + w] as u32 + self.shadow_map[idx + w + 1] as u32;
                    assert(sum == neighbourhood_sum(map, w as int, idx as int));
                    out.set(idx, (sum / 9) as u8);
                }
                proof {
                    assert forall|k: int| 0 <= k < map.len() implies #[trigger] out@[k] == (
                    if scanned_cell(w as int, k, x + 1, y as int) {
                        blurred_entry(map, w as int, h as int, k)
                    } else {
                        map[k]
                    }) by {
                        lemma_index(w as int, h as int, k);
                        assert(mid[k] == (if scanned_cell(w as int, k, x as int, y as int) {
                            blurred_entry(map, w as int, h as int, k)
                        } else {
                            map[k]
                        }));
                    }
                }
                x += 1;
            }
            proof {
                assert forall|k: int| 0 <= k < map.len() implies #[trigger] out@[k] == (
                if scanned_cell(w as int, k, 0, y + 1) {
                    blurred_entry(map, w as int, h as int, k)
                } else {
                    map[k]
                }) by {
                    lemma_index(w as int, h as int, k);
                }
            }
            y += 1;
        }
        proof {
            assert forall|k: int| 0 <= k < map.len() implies #[trigger] out@[k] == blurred_entry(
                map,
                w as int,
                h as int,
                k,
            ) by {
                lemma_index(w as int, h as int, k);
            }
            assert(out@ =~= blurred(map, w as int, h as int));
            if forall|k: int| 0 <= k < map.len() ==> #[trigger] map[k] <= SHADOW_CAP {
                assert forall|k: int| 0 <= k < out@.len() implies #[trigger] out@[k]
                    <= SHADOW_CAP by {
                    lemma_blurred_bound(map, w as int, h as int, SHADOW_CAP, k);
                }
            }
        }
        self.shadow_map = out;
    }

    /// Builds the world image and the shadow map from the static map: tiles
    /// first, then the shadows of all objects, one blur of the shadow map,
    /// and the objects on top. Items whose sprite `static_atlas` does not
    /// know are skipped.
    pub fn init(&mut self, game: &GameMap, static_atlas: &Atlas)
        requires
            old(self).wf(),
            static_atlas.wf(),
        ensures
            final(self).wf(),
            old(self).same_frame_state(final(self)),
            (final(self).world_buf@, final(self).shadow_map@) == built(
                old(self).world_buf@,
                old(self).shadow_map@,
                old(self).world_width as int,
                old(self).world_height as int,
                *static_atlas,
                game.tiles@,
                game.objects@,
            ),
            (forall|k: int|
                0 <= k < old(self).shadow_map@.len() ==> #[trigger] old(self).shadow_map@[k]
                    <= SHADOW_CAP) ==> (forall|k: int|
                0 <= k < final(self).shadow_map@.len() ==> #[trigger] final(self).shadow_map@[k]
                    <= SHADOW_CAP),
    {
        let w = self.world_width;
        let h = self.world_height;
        let ghost world0 = self.world_buf@;
        let ghost shadow0 = self.shadow_map@;
        let tiles = tile_stamps(&game.tiles, static_atlas, w, h);
        run_opaque_pass(&mut self.world_buf, w, h, static_atlas, &tiles);
        let ghost ground = self.world_buf@;
        let objects = object_stamps(&game.objects, static_atlas, w, h);
        run_world_shadow_pass(
            &mut self.world_buf,
            &mut self.shadow_map,
            w,
            h,
            static_atlas,
            &objects,
        );
        proof {
            lemma_world_shadow_pass(
                ground,
                shadow0,
                w as int,
                static_atlas.image,
                objects@,
                objects@.len(),
            );
        }
        self.soft_blur_shadows();
        run_opaque_pass(&mut self.world_buf, w, h, static_atlas, &objects);
    }

    /// Renders one frame into `buf`: the camera's window on the world, then
    /// the shadows of all entities, then their sprites, both in depth order
    /// (world `y`, then world `x`, then the order given). Entities whose
    /// sprite the entity atlas does not know are skipped. A buffer that does
    /// not hold `width * height` pixels is refused and nothing changes.
    pub fn render_frame(
        &mut self,
        visible_entities: &Vec<RenderableEntity>,
        camera: &Camera,
        buf: &mut Vec<u32>,
    ) -> (result: Result<(), RenderError>)
        requires
            old(self).wf(),
        ensures
            final(self).wf(),
            final(self).entity_atlas == old(self).entity_atlas,
            final(self).world_width == old(self).world_width,
            final(self).world_height == old(self).world_height,
            final(self).world_buf == old(self).world_buf,
            final(self).shadow_map == old(self).shadow_map,
            result is Err <==> old(buf)@.len() != camera.area(),
            match result {
                Ok(_) => (final(buf)@, final(self).dynamic_shadow_buf@) == composed(
                    *old(self),
                    visible_entities@,
                    *camera,
                ),
                Err(e) => e == RenderError::BufferSize && final(buf)@ == old(buf)@
                    && final(self).dynamic_shadow_buf == old(self).dynamic_shadow_buf,
            },
    {
        let w = self.world_width;
        let h = self.world_height;
        let vw: usize = camera.width as usize;
        let vh: usize = camera.height as usize;
        assert(vw * vh <= 65535 * 65535) by (nonlinear_arith)
            requires
                vw <= 65535,
                vh <= 65535,
        ;
        if buf.len() != vw * vh {
            return Err(RenderError::BufferSize);
        }
        copy_view(buf, &self.world_buf, w, h, camera);
        let cells = self.dynamic_shadow_buf.len();
        self.dynamic_shadow_buf = vec![0u8; cells];
        assert(self.dynamic_shadow_buf@ =~= clear_mask(cells as nat));
        let order = entity_order(visible_entities);
        let shadows = screen_stamps(visible_entities, &order, &self.entity_atlas, camera, true);
        let units = screen_stamps(visible_entities, &order, &self.entity_atlas, camera, false);
        let ox = camera.sprite_origin_x();
        let oy = camera.sprite_origin_y();
        run_unit_shadow_pass(
            buf,
            &mut self.dynamic_shadow_buf,
            vw,
            vh,
            &self.entity_atlas,
            &shadows,
            &self.shadow_map,
            w,
            h,
            ox,
            oy,
        );
        run_unit_pass(buf, vw, vh, &self.entity_atlas, &units, &self.shadow_map, w, h, ox, oy);
        Ok(())
    }

    /// An entity at `(x, y)` drawn with the frame `sprite_name`.
    pub fn create_entity(&self, x: i32, y: i32, sprite_name: &str) -> (entity: RenderableEntity)
        ensures
            entity.x == x,
            entity.y == y,
            entity.sprite_name@ == sprite_name@,
    {
        RenderableEntity::with_sprite(x, y, sprite_name)
    }
}

} // verus!
