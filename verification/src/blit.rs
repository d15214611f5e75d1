//! Blit primitives: copies of one atlas frame into a pixel buffer. Each is
//! specified pixel by pixel: what a cell of the target holds afterwards is a
//! function of what it held before and of the one frame pixel that lands on it.

use crate::atlas::{Atlas, AtlasImage, Frame};
use crate::color::{
    blend_unit_pixel, copied_pixel, copy_pixel, shade_unit_shadow_pixel, shade_world_pixel,
    unit_blended_pixel, unit_shadowed_pixel, world_shaded_pixel, Rgba,
};
use crate::grid::{cell, cell_index, col_of, in_grid, lemma_cell, lemma_index, row_of};
use vstd::prelude::*;

verus! {

/// Largest world width or height: sprite coordinates are signed 32-bit.
pub const WORLD_LIMIT: usize = 0x7fff_ffff;

/// Largest magnitude of a sprite's screen coordinate inside the renderer.
pub const SCREEN_LIMIT: i128 = 0x1_0000_0000_0000_0000_0000;

/// The atlas pixel that offset `(dx, dy)` of a frame reads: `None` outside
/// the frame and outside the image.
pub open spec fn frame_pixel(image: AtlasImage, frame: Frame, dx: int, dy: int) -> Option<Rgba> {
    if 0 <= dx < frame.w && 0 <= dy < frame.h && image.contains(frame.x + dx, frame.y + dy) {
        Some(image.at(frame.x + dx, frame.y + dy))
    } else {
        None
    }
}

/// The pixel that offset `(dx, dy)` of a frame draws: its atlas pixel, unless
/// that is fully transparent.
pub open spec fn visible_pixel(image: AtlasImage, frame: Frame, dx: int, dy: int) -> Option<
    Rgba,
> {
    match frame_pixel(image, frame, dx, dy) {
        Some(p) => if p.a > 0 {
            Some(p)
        } else {
            None
        },
        None => None,
    }
}

/// Whether a row-by-row scan that stands at `(dx, dy)` has passed `(sx, sy)`.
spec fn scanned(sx: int, sy: int, dx: int, dy: int) -> bool {
    sy < dy || (sy == dy && sx < dx)
}

/// One pixel of an alpha-tested copy: the frame's pixel where it is visible,
/// else what was there.
pub open spec fn opaque_blit_pixel(
    old_pixel: u32,
    image: AtlasImage,
    frame: Frame,
    dx: int,
    dy: int,
) -> u32 {
    match visible_pixel(image, frame, dx, dy) {
        Some(p) => copied_pixel(p),
        None => old_pixel,
    }
}

/// An alpha-tested copy of a frame into a buffer `w` wide, with the frame's
/// top-left corner at `(sx, sy)`. Pixels that fall outside are dropped.
pub open spec fn opaque_blit(
    buf: Seq<u32>,
    w: int,
    image: AtlasImage,
    frame: Frame,
    sx: int,
    sy: int,
) -> Seq<u32> {
    Seq::new(
        buf.len(),
        |k: int| opaque_blit_pixel(buf[k], image, frame, col_of(w, k) - sx, row_of(w, k) - sy),
    )
}

/// Reads the pixel that offset `(dx, dy)` of a frame draws.
pub(crate) fn source_pixel(atlas: &Atlas, frame: &Frame, dx: u32, dy: u32) -> (p: Option<Rgba>)
    requires
        dx < frame.w,
        dy < frame.h,
    ensures
        p == visible_pixel(atlas.image, *frame, dx as int, dy as int),
{
    let x: u64 = frame.x as u64 + dx as u64;
    let y: u64 = frame.y as u64 + dy as u64;
    let size = atlas.image.dimensions();
    if x >= size.0 as u64 || y >= size.1 as u64 {
        return None;
    }
    match atlas.image.pixel(x as u32, y as u32) {
        Some(p) => if p.a > 0 {
            Some(p)
        } else {
            None
        },
        None => None,
    }
}

/// The cell of a `w` by `h` grid at signed position `(x, y)`, if there is one.
pub(crate) fn grid_cell(w: usize, h: usize, x: i128, y: i128) -> (r: Option<usize>)
    requires
        w * h <= usize::MAX,
    ensures
        match r {
            Some(k) => in_grid(w as int, h as int, x as int, y as int) && k == cell(
                w as int,
                x as int,
                y as int,
            ) && k < w * h,
            None => !in_grid(w as int, h as int, x as int, y as int),
        },
{
    if x >= 0 && y >= 0 && x < w as i128 && y < h as i128 {
        Some(cell_index(w, h, x as usize, y as usize))
    } else {
        None
    }
}

/// A cell of the target while an alpha-tested copy stands at `(dx, dy)` of
/// the frame; `(px, py)` is the frame offset that lands on the cell.
spec fn opaque_scan(
    old_pixel: u32,
    image: AtlasImage,
    frame: Frame,
    px: int,
    py: int,
    dx: int,
    dy: int,
) -> u32 {
    if scanned(px, py, dx, dy) {
        opaque_blit_pixel(old_pixel, image, frame, px, py)
    } else {
        old_pixel
    }
}

/// Copies the visible pixels of a frame into `buf`.
pub(crate) fn blit_opaque(
    buf: &mut Vec<u32>,
    w: usize,
    h: usize,
    atlas: &Atlas,
    frame: &Frame,
    sx: i128,
    sy: i128,
)
    requires
        w * h == old(buf)@.len(),
        -SCREEN_LIMIT <= sx <= SCREEN_LIMIT,
        -SCREEN_LIMIT <= sy <= SCREEN_LIMIT,
    ensures
        final(buf)@ == opaque_blit(
            old(buf)@,
            w as int,
            atlas.image,
            *frame,
            sx as int,
            sy as int,
        ),
{
    let ghost before = buf@;
    let ghost image = atlas.image;
    let ghost gw = w as int;
    assert(buf@.len() <= usize::MAX) by {
        vstd::std_specs::vec::axiom_spec_len(buf);
    }
    let mut dy: u32 = 0;
    while dy < frame.h
        invariant
            dy <= frame.h,
            buf@.len() == before.len(),
            w * h == before.len(),
            w * h <= usize::MAX,
            gw == w,
            image == atlas.image,
            -SCREEN_LIMIT <= sx <= SCREEN_LIMIT,
            -SCREEN_LIMIT <= sy <= SCREEN_LIMIT,
            forall|k: int|
                0 <= k < before.len() ==> #[trigger] buf@[k] == opaque_scan(
                    before[k],
                    image,
                    *frame,
                    col_of(gw, k) - sx,
                    row_of(gw, k) - sy,
                    0,
                    dy as int,
                ),
        decreases frame.h - dy,
    {
        let mut dx: u32 = 0;
        while dx < frame.w
            invariant
                dx <= frame.w,
                dy < frame.h,
                buf@.len() == before.len(),
                w * h == before.len(),
                w * h <= usize::MAX,
                gw == w,
                image == atlas.image,
                -SCREEN_LIMIT <= sx <= SCREEN_LIMIT,
                -SCREEN_LIMIT <= sy <= SCREEN_LIMIT,
                forall|k: int|
                    0 <= k < before.len() ==> #[trigger] buf@[k] == opaque_scan(
                        before[k],
                        image,
                        *frame,
                        col_of(gw, k) - sx,
                        row_of(gw, k) - sy,
                        dx as int,
                        dy as int,
                    ),
            decreases frame.w - dx,
        {
            let ghost mid = buf@;
            let x: i128 = sx + dx as i128;
            let y: i128 = sy + dy as i128;
            match source_pixel(atlas, frame, dx, dy) {
                Some(p) => {
                    match grid_cell(w, h, x, y) {
                        Some(idx) => {
                            buf.set(idx, copy_pixel(p));
                        },
                        None => {},
                    }
                },
                None => {},
            }
            proof {
                if in_grid(gw, h as int, x as int, y as int) {
                    lemma_cell(gw, h as int, x as int, y as int);
                }
                assert forall|k: int| 0 <= k < before.len() implies #[trigger] buf@[k]
                    == opaque_scan(
                    before[k],
                    image,
                    *frame,
                    col_of(gw, k) - sx,
                    row_of(gw, k) - sy,
                    dx + 1,
                    dy as int,
                ) by {
                    lemma_index(gw, h as int, k);
                    assert(mid[k] == opaque_scan(
                        before[k],
                        image,
                        *frame,
                        col_of(gw, k) - sx,
                        row_of(gw, k) - sy,
                        dx as int,
                        dy as int,
                    ));
                }
            }
            dx += 1;
        }
        dy += 1;
    }
    assert(buf@ =~= opaque_blit(before, gw, image, *frame, sx as int, sy as int));
}

/// What one cast adds to a shadow-map entry.
pub const SHADOW_STEP: u8 = 8;

/// The value that no cast raises a shadow-map entry above.
pub const SHADOW_CAP: u8 = 48;

/// Direction of the light along the rows: a pixel's shadow falls this many
/// half-pixels to the right for each row that the pixel stands above the
/// frame's bottom edge.
pub const LIGHT_DIR_X: i128 = 1;

/// Direction of the light across the rows. The light falls along the rows, so
/// a shadow stays in the row of the pixel that casts it.
pub const LIGHT_DIR_Y: i128 = 0;

/// A shadow-map entry after one more cast: `SHADOW_STEP` added without
/// overflow, then capped at `SHADOW_CAP`.
pub open spec fn deepened(v: u8) -> u8 {
    let raised = if v + SHADOW_STEP > 255 {
        255
    } else {
        v + SHADOW_STEP
    };
    if raised > SHADOW_CAP {
        SHADOW_CAP
    } else {
        raised as u8
    }
}

/// How far to the right the shadow of a pixel falls that stands `rise` rows
/// above the frame's bottom edge: half the rise, rounded down.
pub open spec fn shadow_reach(rise: int) -> int {
    LIGHT_DIR_X as int * rise / 2
}

/// The world column on which a frame pixel at offset `dx`, `rise` rows above
/// the frame's bottom edge, casts its shadow, for a frame whose left edge is
/// at `sx`.
pub open spec fn world_shadow_column(sx: int, dx: int, rise: int) -> int {
    sx + dx + shadow_reach(rise)
}

/// A shadow-map entry after `n` casts in a row.
pub open spec fn deepened_times(v: u8, n: nat) -> u8
    decreases n,
{
    if n == 0 {
        v
    } else {
        deepened(deepened_times(v, (n - 1) as nat))
    }
}

/// However often a shadow is cast on one entry, the entry ends at or below
/// the cap; an entry that starts at or below the cap never passes it and
/// never falls.
pub proof fn lemma_deepened_times(v: u8, n: nat)
    ensures
        n > 0 ==> deepened_times(v, n) <= SHADOW_CAP,
        v <= SHADOW_CAP ==> v <= deepened_times(v, n) <= SHADOW_CAP,
        n >= 6 && v <= SHADOW_CAP ==> deepened_times(v, n) == SHADOW_CAP,
    decreases n,
{
    if n > 0 {
        lemma_deepened_times(v, (n - 1) as nat);
        if n >= 6 && v <= SHADOW_CAP {
            lemma_deepened_steps(v, n);
        }
    }
}

/// Each cast adds a full step until the cap is reached.
proof fn lemma_deepened_steps(v: u8, n: nat)
    requires
        v <= SHADOW_CAP,
    ensures
        deepened_times(v, n) as int == if v + n * SHADOW_STEP > SHADOW_CAP {
            SHADOW_CAP as int
        } else {
            v + n * SHADOW_STEP
        },
    decreases n,
{
    if n > 0 {
        lemma_deepened_steps(v, (n - 1) as nat);
    }
}

/// Whether the shadow that a frame at `(sx, sy)` casts on the world covers
/// `(x, y)`: the frame pixel in that row, `shadow_reach` to the left, is
/// visible.
pub open spec fn world_shadow_covers(
    image: AtlasImage,
    frame: Frame,
    sx: int,
    sy: int,
    x: int,
    y: int,
) -> bool {
    let dy = y - sy;
    visible_pixel(image, frame, x - sx - shadow_reach(frame.h - dy), dy) is Some
}

/// The shadow of a frame covers a world pixel exactly when a visible pixel
/// of the frame casts its shadow there: a pixel `rise` rows above the bottom
/// edge reaches `shadow_reach(rise)` columns to the right, in its own row.
pub proof fn lemma_world_shadow_covers(
    image: AtlasImage,
    frame: Frame,
    sx: int,
    sy: int,
    x: int,
    y: int,
)
    ensures
        world_shadow_covers(image, frame, sx, sy, x, y) <==> exists|dx: int, dy: int|
            #![trigger visible_pixel(image, frame, dx, dy)]
            visible_pixel(image, frame, dx, dy) is Some && world_shadow_column(
                sx,
                dx,
                frame.h - dy,
            ) == x && sy + dy == y,
{
    if world_shadow_covers(image, frame, sx, sy, x, y) {
        let dy = y - sy;
        let dx = x - sx - shadow_reach(frame.h - dy);
        assert(visible_pixel(image, frame, dx, dy) is Some);
    }
}

/// The shadow map after a frame at `(sx, sy)` has cast its shadow: every
/// covered entry deepened once.
pub open spec fn world_shadow_map(
    shadow: Seq<u8>,
    w: int,
    image: AtlasImage,
    frame: Frame,
    sx: int,
    sy: int,
) -> Seq<u8> {
    Seq::new(
        shadow.len(),
        |k: int|
            if world_shadow_covers(image, frame, sx, sy, col_of(w, k), row_of(w, k)) {
                deepened(shadow[k])
            } else {
                shadow[k]
            },
    )
}

/// The world image after a frame at `(sx, sy)` has cast its shadow: every
/// covered pixel darkened by the deepened strength of its shadow-map entry.
pub open spec fn world_shadow_image(
    world: Seq<u32>,
    shadow: Seq<u8>,
    w: int,
    image: AtlasImage,
    frame: Frame,
    sx: int,
    sy: int,
) -> Seq<u32> {
    Seq::new(
        world.len(),
        |k: int|
            if world_shadow_covers(image, frame, sx, sy, col_of(w, k), row_of(w, k)) {
                world_shaded_pixel(world[k], deepened(shadow[k]))
            } else {
                world[k]
            },
    )
}

/// Deepens a shadow-map entry by one cast.
pub fn deepen(v: u8) -> (d: u8)
    ensures
        d == deepened(v),
        d <= SHADOW_CAP,
        v <= SHADOW_CAP ==> v <= d,
        v == 0 ==> d == SHADOW_STEP,
{
    let raised: u8 = if v > 255 - SHADOW_STEP {
        255
    } else {
        v + SHADOW_STEP
    };
    if raised > SHADOW_CAP {
        SHADOW_CAP
    } else {
        raised
    }
}

/// Whether a cast that stands at `(dx, dy)` of the frame has already cast
/// the shadow that covers `(x, y)`.
spec fn world_shadow_done(
    image: AtlasImage,
    frame: Frame,
    sx: int,
    sy: int,
    x: int,
    y: int,
    dx: int,
    dy: int,
) -> bool {
    scanned(x - sx - shadow_reach(frame.h - (y - sy)), y - sy, dx, dy) && world_shadow_covers(
        image,
        frame,
        sx,
        sy,
        x,
        y,
    )
}

/// A shadow-map entry while a cast is under way.
spec fn world_shadow_map_scan(old_entry: u8, done: bool) -> u8 {
    if done {
        deepened(old_entry)
    } else {
        old_entry
    }
}

/// A world pixel while a cast is under way.
spec fn world_shadow_image_scan(old_pixel: u32, old_entry: u8, done: bool) -> u32 {
    if done {
        world_shaded_pixel(old_pixel, deepened(old_entry))
    } else {
        old_pixel
    }
}

/// Casts the shadow of a frame at `(sx, sy)` on the world: deepens the shadow
/// map under it and darkens the world image there.
pub(crate) fn blit_world_shadow(
    world: &mut Vec<u32>,
    shadow: &mut Vec<u8>,
    w: usize,
    h: usize,
    atlas: &Atlas,
    frame: &Frame,
    sx: i128,
    sy: i128,
)
    requires
        w * h == old(world)@.len(),
        w * h == old(shadow)@.len(),
        -SCREEN_LIMIT <= sx <= SCREEN_LIMIT,
        -SCREEN_LIMIT <= sy <= SCREEN_LIMIT,
    ensures
        final(shadow)@ == world_shadow_map(
            old(shadow)@,
            w as int,
            atlas.image,
            *frame,
            sx as int,
            sy as int,
        ),
        final(world)@ == world_shadow_image(
            old(world)@,
            old(shadow)@,
            w as int,
            atlas.image,
            *frame,
            sx as int,
            sy as int,
        ),
{
    let ghost world0 = world@;
    let ghost shadow0 = shadow@;
    let ghost image = atlas.image;
    let ghost gw = w as int;
    let ghost gx = sx as int;
    let ghost gy = sy as int;
    assert(world@.len() <= usize::MAX) by {
        vstd::std_specs::vec::axiom_spec_len(world);
    }
    let mut dy: u32 = 0;
    while dy < frame.h
        invariant
            dy <= frame.h,
            world@.len() == world0.len(),
            shadow@.len() == shadow0.len(),
            w * h == world0.len(),
            w * h == shadow0.len(),
            w * h <= usize::MAX,
            gw == w,
            gx == sx,
            gy == sy,
            image == atlas.image,
            -SCREEN_LIMIT <= sx <= SCREEN_LIMIT,
            -SCREEN_LIMIT <= sy <= SCREEN_LIMIT,
            forall|k: int|
                0 <= k < w * h ==> #[trigger] shadow@[k] == world_shadow_map_scan(
                    shadow0[k],
                    world_shadow_done(
                        image,
                        *frame,
                        gx,
                        gy,
                        col_of(gw, k),
                        row_of(gw, k),
                        0,
                        dy as int,
                    ),
                ),
            forall|k: int|
                0 <= k < w * h ==> #[trigger] world@[k] == world_shadow_image_scan(
                    world0[k],
                    shadow0[k],
                    world_shadow_done(
                        image,
                        *frame,
                        gx,
                        gy,
                        col_of(gw, k),
                        row_of(gw, k),
                        0,
                        dy as int,
                    ),
                ),
        decreases frame.h - dy,
    {
        let rise: i128 = frame.h as i128 - dy as i128;
        let reach: i128 = LIGHT_DIR_X * rise / 2;
        let drop: i128 = LIGHT_DIR_Y * rise / 2;
        let mut dx: u32 = 0;
        while dx < frame.w
            invariant
                dx <= frame.w,
                dy < frame.h,
                rise == frame.h - dy,
                reach == shadow_reach(rise as int),
                drop == 0,
                world@.len() == world0.len(),
                shadow@.len() == shadow0.len(),
                w * h == world0.len(),
                w * h == shadow0.len(),
                w * h <= usize::MAX,
                gw == w,
                gx == sx,
                gy == sy,
                image == atlas.image,
                -SCREEN_LIMIT <= sx <= SCREEN_LIMIT,
                -SCREEN_LIMIT <= sy <= SCREEN_LIMIT,
                forall|k: int|
                    0 <= k < w * h ==> #[trigger] shadow@[k] == world_shadow_map_scan(
                        shadow0[k],
                        world_shadow_done(
                            image,
                            *frame,
                            gx,
                            gy,
                            col_of(gw, k),
                            row_of(gw, k),
                            dx as int,
                            dy as int,
                        ),
                    ),
                forall|k: int|
                    0 <= k < w * h ==> #[trigger] world@[k] == world_shadow_image_scan(
                        world0[k],
                        shadow0[k],
                        world_shadow_done(
                            image,
                            *frame,
                            gx,
                            gy,
                            col_of(gw, k),
                            row_of(gw, k),
                            dx as int,
                            dy as int,
                        ),
                    ),
            decreases frame.w - dx,
        {
            let ghost world1 = world@;
            let ghost shadow1 = shadow@;
            let x: i128 = sx + dx as i128 + reach;
            let y: i128 = sy + dy as i128 + drop;
            match source_pixel(atlas, frame, dx, dy) {
                Some(_) => {
                    match grid_cell(w, h, x, y) {
                        Some(idx) => {
                            let deeper = deepen(shadow[idx]);
                            shadow.set(idx, deeper);
                            let dark = shade_world_pixel(world[idx], deeper);
                            world.set(idx, dark);
                        },
                        None => {},
                    }
                },
                None => {},
            }
            proof {
                if in_grid(gw, h as int, x as int, y as int) {
                    lemma_cell(gw, h as int, x as int, y as int);
                }
                assert forall|k: int| 0 <= k < w * h implies #[trigger] shadow@[k]
                    == world_shadow_map_scan(
                    shadow0[k],
                    world_shadow_done(
                        image,
                        *frame,
                        gx,
                        gy,
                        col_of(gw, k),
                        row_of(gw, k),
                        dx + 1,
                        dy as int,
                    ),
                ) by {
                    lemma_index(gw, h as int, k);
                    assert(shadow1[k] == world_shadow_map_scan(
                        shadow0[k],
                        world_shadow_done(
                            image,
                            *frame,
                            gx,
                            gy,
                            col_of(gw, k),
                            row_of(gw, k),
                            dx as int,
                            dy as int,
                        ),
                    ));
                }
                assert forall|k: int| 0 <= k < w * h implies #[trigger] world@[k]
                    == world_shadow_image_scan(
                    world0[k],
                    shadow0[k],
                    world_shadow_done(
                        image,
                        *frame,
                        gx,
                        gy,
                        col_of(gw, k),
                        row_of(gw, k),
                        dx + 1,
                        dy as int,
                    ),
                ) by {
                    lemma_index(gw, h as int, k);
                    let was = world_shadow_done(
                        image,
                        *frame,
                        gx,
                        gy,
                        col_of(gw, k),
                        row_of(gw, k),
                        dx as int,
                        dy as int,
                    );
                    assert(shadow1[k] == world_shadow_map_scan(shadow0[k], was));
                    assert(world1[k] == world_shadow_image_scan(world0[k], shadow0[k], was));
                }
            }
            dx += 1;
        }
        dy += 1;
    }
    assert(shadow@ =~= world_shadow_map(shadow0, gw, image, *frame, gx, gy));
    assert(world@ =~= world_shadow_image(world0, shadow0, gw, image, *frame, gx, gy));
}

/// The shadow-map entry under world position `(x, y)`; no shadow outside the
/// world.
pub open spec fn shadow_at(shadow: Seq<u8>, w: int, h: int, x: int, y: int) -> u8 {
    if in_grid(w, h, x, y) {
        shadow[cell(w, x, y)]
    } else {
        0
    }
}

/// One pixel of a unit's blit: where the frame is visible, its pixel dimmed
/// by `shade` and blended over what was there.
pub open spec fn unit_blit_pixel(
    old_pixel: u32,
    image: AtlasImage,
    frame: Frame,
    dx: int,
    dy: int,
    shade: u8,
) -> u32 {
    match visible_pixel(image, frame, dx, dy) {
        Some(p) => unit_blended_pixel(p, old_pixel, shade),
        None => old_pixel,
    }
}

/// A unit's frame blended into a viewport buffer `vw` wide, its top-left
/// corner at `(sx, sy)`. Screen pixel `(x, y)` stands over world pixel
/// `(ox + x, oy + y)`, whose shadow-map entry dims the sprite there.
pub open spec fn unit_blit(
    buf: Seq<u32>,
    vw: int,
    image: AtlasImage,
    frame: Frame,
    sx: int,
    sy: int,
    shadow: Seq<u8>,
    w: int,
    h: int,
    ox: int,
    oy: int,
) -> Seq<u32> {
    Seq::new(
        buf.len(),
        |k: int|
            unit_blit_pixel(
                buf[k],
                image,
                frame,
                col_of(vw, k) - sx,
                row_of(vw, k) - sy,
                shadow_at(shadow, w, h, ox + col_of(vw, k), oy + row_of(vw, k)),
            ),
    )
}

/// Reads the shadow-map entry under a world position.
pub(crate) fn read_shadow(shadow: &Vec<u8>, w: usize, h: usize, x: i128, y: i128) -> (v: u8)
    requires
        w * h == shadow@.len(),
    ensures
        v == shadow_at(shadow@, w as int, h as int, x as int, y as int),
{
    assert(shadow@.len() <= usize::MAX) by {
        vstd::std_specs::vec::axiom_spec_len(shadow);
    }
    match grid_cell(w, h, x, y) {
        Some(k) => shadow[k],
        None => 0,
    }
}

/// A cell of the viewport while a unit's blit stands at `(dx, dy)` of the
/// frame; `(px, py)` is the frame offset that lands on the cell.
spec fn unit_scan(
    old_pixel: u32,
    image: AtlasImage,
    frame: Frame,
    px: int,
    py: int,
    shade: u8,
    dx: int,
    dy: int,
) -> u32 {
    if scanned(px, py, dx, dy) {
        unit_blit_pixel(old_pixel, image, frame, px, py, shade)
    } else {
        old_pixel
    }
}

/// Blends the visible pixels of a unit's frame into the viewport buffer.
pub(crate) fn blit_unit(
    buf: &mut Vec<u32>,
    vw: usize,
    vh: usize,
    atlas: &Atlas,
    frame: &Frame,
    sx: i128,
    sy: i128,
    shadow: &Vec<u8>,
    w: usize,
    h: usize,
    ox: i32,
    oy: i32,
)
    requires
        vw * vh == old(buf)@.len(),
        w * h == shadow@.len(),
        -SCREEN_LIMIT <= sx <= SCREEN_LIMIT,
        -SCREEN_LIMIT <= sy <= SCREEN_LIMIT,
    ensures
        final(buf)@ == unit_blit(
            old(buf)@,
            vw as int,
            atlas.image,
            *frame,
            sx as int,
            sy as int,
            shadow@,
            w as int,
            h as int,
            ox as int,
            oy as int,
        ),
{
    let ghost before = buf@;
    let ghost image = atlas.image;
    let ghost gvw = vw as int;
    let ghost gw = w as int;
    let ghost gh = h as int;
    assert(buf@.len() <= usize::MAX) by {
        vstd::std_specs::vec::axiom_spec_len(buf);
    }
    let mut dy: u32 = 0;
    while dy < frame.h
        invariant
            dy <= frame.h,
            buf@.len() == before.len(),
            vw * vh == before.len(),
            vw * vh <= usize::MAX,
            w * h == shadow@.len(),
            gvw == vw,
            gw == w,
            gh == h,
            image == atlas.image,
            -SCREEN_LIMIT <= sx <= SCREEN_LIMIT,
            -SCREEN_LIMIT <= sy <= SCREEN_LIMIT,
            forall|k: int|
                0 <= k < before.len() ==> #[trigger] buf@[k] == unit_scan(
                    before[k],
                    image,
                    *frame,
                    col_of(gvw, k) - sx,
                    row_of(gvw, k) - sy,
                    shadow_at(shadow@, gw, gh, ox + col_of(gvw, k), oy + row_of(gvw, k)),
                    0,
                    dy as int,
                ),
        decreases frame.h - dy,
    {
        let mut dx: u32 = 0;
        while dx < frame.w
            invariant
                dx <= frame.w,
                dy < frame.h,
                buf@.len() == before.len(),
                vw * vh == before.len(),
                vw * vh <= usize::MAX,
                w * h == shadow@.len(),
                gvw == vw,
                gw == w,
                gh == h,
                image == atlas.image,
                -SCREEN_LIMIT <= sx <= SCREEN_LIMIT,
                -SCREEN_LIMIT <= sy <= SCREEN_LIMIT,
                forall|k: int|
                    0 <= k < before.len() ==> #[trigger] buf@[k] == unit_scan(
                        before[k],
                        image,
                        *frame,
                        col_of(gvw, k) - sx,
                        row_of(gvw, k) - sy,
                        shadow_at(shadow@, gw, gh, ox + col_of(gvw, k), oy + row_of(gvw, k)),
                        dx as int,
                        dy as int,
                    ),
            decreases frame.w - dx,
        {
            let ghost mid = buf@;
            let x: i128 = sx + dx as i128;
            let y: i128 = sy + dy as i128;
            match source_pixel(atlas, frame, dx, dy) {
                Some(p) => {
                    match grid_cell(vw, vh, x, y) {
                        Some(idx) => {
                            let shade = read_shadow(shadow, w, h, ox as i128 + x, oy as i128 + y);
                            let q = blend_unit_pixel(p, buf[idx], shade);
                            buf.set(idx, q);
                        },
                        None => {},
                    }
                },
                None => {},
            }
            proof {
                if in_grid(gvw, vh as int, x as int, y as int) {
                    lemma_cell(gvw, vh as int, x as int, y as int);
                }
                assert forall|k: int| 0 <= k < before.len() implies #[trigger] buf@[k]
                    == unit_scan(
                    before[k],
                    image,
                    *frame,
                    col_of(gvw, k) - sx,
                    row_of(gvw, k) - sy,
                    shadow_at(shadow@, gw, gh, ox + col_of(gvw, k), oy + row_of(gvw, k)),
                    dx + 1,
                    dy as int,
                ) by {
                    lemma_index(gvw, vh as int, k);
                    assert(mid[k] == unit_scan(
                        before[k],
                        image,
                        *frame,
                        col_of(gvw, k) - sx,
                        row_of(gvw, k) - sy,
                        shadow_at(shadow@, gw, gh, ox + col_of(gvw, k), oy + row_of(gvw, k)),
                        dx as int,
                        dy as int,
                    ));
                }
            }
            dx += 1;
        }
        dy += 1;
    }
    assert(buf@ =~= unit_blit(
        before,
        gvw,
        image,
        *frame,
        sx as int,
        sy as int,
        shadow@,
        gw,
        gh,
        ox as int,
        oy as int,
    ));
}

/// A unit's shadow is dropped where the shadow map is above this value.
pub const STATIC_SHADOW_THRESHOLD: u8 = 16;

/// What a unit's shadow writes into the mask where it falls first.
pub const DYNAMIC_SHADOW_MARK: u8 = 64;

/// Half of `v`, rounded to the nearest integer, halves away from zero.
pub open spec fn half_rounded(v: int) -> int {
    if v >= 0 {
        (v + 1) / 2
    } else {
        -((1 - v) / 2)
    }
}

/// The screen column on which a unit's pixel at offset `dx`, `rise` rows
/// above the frame's bottom edge, casts its shadow: `sx + dx + rise / 2`,
/// rounded to the nearest column.
pub open spec fn unit_shadow_column(sx: int, dx: int, rise: int) -> int {
    half_rounded(2 * (sx + dx) + LIGHT_DIR_X as int * rise)
}

/// The frame column whose shadow falls on screen column `x >= 0`, for pixels
/// `rise` rows above the frame's bottom edge. No column's shadow falls on
/// column 0 when `rise` is odd and the shadow would stand half a pixel left
/// of it: `None` then.
pub open spec fn unit_shadow_source(sx: int, rise: int, x: int) -> Option<int> {
    if rise % 2 == 0 {
        Some(x - sx - rise / 2)
    } else if x >= 1 {
        Some(x - sx - (rise + 1) / 2)
    } else {
        None
    }
}

/// On the screen, a frame column's shadow falls on column `x` exactly when it
/// is the column that [`unit_shadow_source`] names.
pub proof fn lemma_unit_shadow_source(sx: int, dx: int, rise: int, x: int)
    requires
        x >= 0,
    ensures
        unit_shadow_column(sx, dx, rise) == x <==> unit_shadow_source(sx, rise, x) == Some(dx),
{
}

/// Whether the shadow that a unit's frame at `(sx, sy)` casts on the screen
/// covers `(x, y)`, for `x >= 0`.
pub open spec fn unit_shadow_covers(
    image: AtlasImage,
    frame: Frame,
    sx: int,
    sy: int,
    x: int,
    y: int,
) -> bool {
    match unit_shadow_source(sx, frame.h - (y - sy), x) {
        Some(dx) => visible_pixel(image, frame, dx, y - sy) is Some,
        None => false,
    }
}

/// The shadow of a unit's frame covers a screen pixel exactly when a visible
/// pixel of the frame casts its shadow there: a pixel `rise` rows above the
/// bottom edge reaches half of `rise` columns to the right, in its own row.
pub proof fn lemma_unit_shadow_covers(
    image: AtlasImage,
    frame: Frame,
    sx: int,
    sy: int,
    x: int,
    y: int,
)
    requires
        x >= 0,
    ensures
        unit_shadow_covers(image, frame, sx, sy, x, y) <==> exists|dx: int, dy: int|
            #![trigger visible_pixel(image, frame, dx, dy)]
            visible_pixel(image, frame, dx, dy) is Some && unit_shadow_column(
                sx,
                dx,
                frame.h - dy,
            ) == x && sy + dy == y,
{
    let rise = frame.h - (y - sy);
    if unit_shadow_covers(image, frame, sx, sy, x, y) {
        let dx = unit_shadow_source(sx, rise, x).unwrap();
        lemma_unit_shadow_source(sx, dx, rise, x);
        assert(visible_pixel(image, frame, dx, y - sy) is Some);
    }
    if exists|dx: int, dy: int|
        #![trigger visible_pixel(image, frame, dx, dy)]
        visible_pixel(image, frame, dx, dy) is Some && unit_shadow_column(sx, dx, frame.h - dy)
            == x && sy + dy == y {
        let (dx, dy) = choose|dx: int, dy: int|
            #![trigger visible_pixel(image, frame, dx, dy)]
            visible_pixel(image, frame, dx, dy) is Some && unit_shadow_column(
                sx,
                dx,
                frame.h - dy,
            ) == x && sy + dy == y;
        lemma_unit_shadow_source(sx, dx, rise, x);
    }
}

/// Whether a unit's shadow is dropped at world position `(x, y)`: a static
/// shadow above the threshold lies there, or another unit's shadow fell there
/// earlier in the frame. Nothing blocks a shadow outside the world.
pub open spec fn unit_shadow_blocked(
    shadow: Seq<u8>,
    mask: Seq<u8>,
    w: int,
    h: int,
    x: int,
    y: int,
) -> bool {
    in_grid(w, h, x, y) && (shadow[cell(w, x, y)] > STATIC_SHADOW_THRESHOLD || mask[cell(
        w,
        x,
        y,
    )] > 0)
}

/// The mask after a unit's frame at `(sx, sy)` has cast its shadow: marked
/// wherever the shadow falls inside viewport and world and no mark stood.
pub open spec fn unit_shadow_mask(
    mask: Seq<u8>,
    w: int,
    vw: int,
    vh: int,
    image: AtlasImage,
    frame: Frame,
    sx: int,
    sy: int,
    ox: int,
    oy: int,
) -> Seq<u8> {
    Seq::new(
        mask.len(),
        |k: int|
            if mask[k] == 0 && in_grid(vw, vh, col_of(w, k) - ox, row_of(w, k) - oy)
                && unit_shadow_covers(
                image,
                frame,
                sx,
                sy,
                col_of(w, k) - ox,
                row_of(w, k) - oy,
            ) {
                DYNAMIC_SHADOW_MARK
            } else {
                mask[k]
            },
    )
}

/// The viewport after a unit's frame at `(sx, sy)` has cast its shadow:
/// darkened wherever the shadow falls and is not blocked.
pub open spec fn unit_shadow_image(
    buf: Seq<u32>,
    vw: int,
    mask: Seq<u8>,
    shadow: Seq<u8>,
    w: int,
    h: int,
    image: AtlasImage,
    frame: Frame,
    sx: int,
    sy: int,
    ox: int,
    oy: int,
) -> Seq<u32> {
    Seq::new(
        buf.len(),
        |k: int|
            if unit_shadow_covers(image, frame, sx, sy, col_of(vw, k), row_of(vw, k))
                && !unit_shadow_blocked(
                shadow,
                mask,
                w,
                h,
                ox + col_of(vw, k),
                oy + row_of(vw, k),
            ) {
                unit_shadowed_pixel(buf[k])
            } else {
                buf[k]
            },
    )
}

/// Whether a cast that stands at `(dx, dy)` of the frame has already cast
/// the shadow that covers screen position `(x, y)`.
spec fn unit_shadow_done(
    image: AtlasImage,
    frame: Frame,
    sx: int,
    sy: int,
    x: int,
    y: int,
    dx: int,
    dy: int,
) -> bool {
    match unit_shadow_source(sx, frame.h - (y - sy), x) {
        Some(c) => scanned(c, y - sy, dx, dy) && visible_pixel(image, frame, c, y - sy) is Some,
        None => false,
    }
}

/// A mask entry while a unit's cast is under way; `on_screen` says whether
/// the entry's world pixel shows in the viewport.
spec fn unit_shadow_mask_scan(old_entry: u8, on_screen: bool, done: bool) -> u8 {
    if old_entry == 0 && on_screen && done {
        DYNAMIC_SHADOW_MARK
    } else {
        old_entry
    }
}

/// A viewport pixel while a unit's cast is under way.
spec fn unit_shadow_image_scan(old_pixel: u32, done: bool, blocked: bool) -> u32 {
    if done && !blocked {
        unit_shadowed_pixel(old_pixel)
    } else {
        old_pixel
    }
}

/// Casts the shadow of a unit's frame at `(sx, sy)` on the viewport: darkens
/// the output where no shadow lies yet, and marks the mask.
pub(crate) fn blit_unit_shadow(
    buf: &mut Vec<u32>,
    mask: &mut Vec<u8>,
    vw: usize,
    vh: usize,
    atlas: &Atlas,
    frame: &Frame,
    sx: i128,
    sy: i128,
    shadow: &Vec<u8>,
    w: usize,
    h: usize,
    ox: i32,
    oy: i32,
)
    requires
        vw * vh == old(buf)@.len(),
        w * h == shadow@.len(),
        w * h == old(mask)@.len(),
        -SCREEN_LIMIT <= sx <= SCREEN_LIMIT,
        -SCREEN_LIMIT <= sy <= SCREEN_LIMIT,
    ensures
        final(mask)@ == unit_shadow_mask(
            old(mask)@,
            w as int,
            vw as int,
            vh as int,
            atlas.image,
            *frame,
            sx as int,
            sy as int,
            ox as int,
            oy as int,
        ),
        final(buf)@ == unit_shadow_image(
            old(buf)@,
            vw as int,
            old(mask)@,
            shadow@,
            w as int,
            h as int,
            atlas.image,
            *frame,
            sx as int,
            sy as int,
            ox as int,
            oy as int,
        ),
{
    let ghost buf0 = buf@;
    let ghost mask0 = mask@;
    let ghost image = atlas.image;
    let ghost gvw = vw as int;
    let ghost gvh = vh as int;
    let ghost gw = w as int;
    let ghost gh = h as int;
    let ghost gx = sx as int;
    let ghost gy = sy as int;
    assert(buf@.len() <= usize::MAX) by {
        vstd::std_specs::vec::axiom_spec_len(buf);
    }
    assert(mask@.len() <= usize::MAX) by {
        vstd::std_specs::vec::axiom_spec_len(mask);
    }
    let mut dy: u32 = 0;
    while dy < frame.h
        invariant
            dy <= frame.h,
            buf@.len() == buf0.len(),
            mask@.len() == mask0.len(),
            vw * vh == buf0.len(),
            vw * vh <= usize::MAX,
            w * h == shadow@.len(),
            w * h == mask0.len(),
            w * h <= usize::MAX,
            gvw == vw,
            gvh == vh,
            gw == w,
            gh == h,
            gx == sx,
            gy == sy,
            image == atlas.image,
            -SCREEN_LIMIT <= sx <= SCREEN_LIMIT,
            -SCREEN_LIMIT <= sy <= SCREEN_LIMIT,
            forall|k: int|
                0 <= k < w * h ==> #[trigger] mask@[k] == unit_shadow_mask_scan(
                    mask0[k],
                    in_grid(gvw, gvh, col_of(gw, k) - ox, row_of(gw, k) - oy),
                    unit_shadow_done(
                        image,
                        *frame,
                        gx,
                        gy,
                        col_of(gw, k) - ox,
                        row_of(gw, k) - oy,
                        0,
                        dy as int,
                    ),
                ),
            forall|k: int|
                0 <= k < vw * vh ==> #[trigger] buf@[k] == unit_shadow_image_scan(
                    buf0[k],
                    unit_shadow_done(
                        image,
                        *frame,
                        gx,
                        gy,
                        col_of(gvw, k),
                        row_of(gvw, k),
                        0,
                        dy as int,
                    ),
                    unit_shadow_blocked(
                        shadow@,
                        mask0,
                        gw,
                        gh,
                        ox + col_of(gvw, k),
                        oy + row_of(gvw, k),
                    ),
                ),
        decreases frame.h - dy,
    {
        let rise: i128 = frame.h as i128 - dy as i128;
        let mut dx: u32 = 0;
        while dx < frame.w
            invariant
                dx <= frame.w,
                dy < frame.h,
                rise == frame.h - dy,
                buf@.len() == buf0.len(),
                mask@.len() == mask0.len(),
                vw * vh == buf0.len(),
                vw * vh <= usize::MAX,
                w * h == shadow@.len(),
                w * h == mask0.len(),
                w * h <= usize::MAX,
                gvw == vw,
                gvh == vh,
                gw == w,
                gh == h,
                gx == sx,
                gy == sy,
                image == atlas.image,
                -SCREEN_LIMIT <= sx <= SCREEN_LIMIT,
                -SCREEN_LIMIT <= sy <= SCREEN_LIMIT,
                forall|k: int|
                    0 <= k < w * h ==> #[trigger] mask@[k] == unit_shadow_mask_scan(
                        mask0[k],
                        in_grid(gvw, gvh, col_of(gw, k) - ox, row_of(gw, k) - oy),
                        unit_shadow_done(
                            image,
                            *frame,
                            gx,
                            gy,
                            col_of(gw, k) - ox,
                            row_of(gw, k) - oy,
                            dx as int,
                            dy as int,
                        ),
                    ),
                forall|k: int|
                    0 <= k < vw * vh ==> #[trigger] buf@[k] == unit_shadow_image_scan(
                        buf0[k],
                        unit_shadow_done(
                            image,
                            *frame,
                            gx,
                            gy,
                            col_of(gvw, k),
                            row_of(gvw, k),
                            dx as int,
                            dy as int,
                        ),
                        unit_shadow_blocked(
                            shadow@,
                            mask0,
                            gw,
                            gh,
                            ox + col_of(gvw, k),
                            oy + row_of(gvw, k),
                        ),
                    ),
            decreases frame.w - dx,
        {
            let ghost buf1 = buf@;
            let ghost mask1 = mask@;
            let doubled: i128 = 2 * (sx + dx as i128) + LIGHT_DIR_X * rise;
            let x: i128 = if doubled >= 0 {
                (doubled + 1) / 2
            } else {
                -((1 - doubled) / 2)
            };
            let y: i128 = sy + dy as i128 + LIGHT_DIR_Y * rise / 2;
            assert(x == unit_shadow_column(gx, dx as int, rise as int));
            assert(y == sy + dy);
            let wx: i128 = ox as i128 + x;
            let wy: i128 = oy as i128 + y;
            match source_pixel(atlas, frame, dx, dy) {
                Some(_) => {
                    match grid_cell(vw, vh, x, y) {
                        Some(idx) => {
                            let mut blocked = false;
                            match grid_cell(w, h, wx, wy) {
                                Some(widx) => {
                                    if shadow[widx] > STATIC_SHADOW_THRESHOLD {
                                        blocked = true;
                                    }
                                    if mask[widx] > 0 {
                                        blocked = true;
                                    } else {
                                        mask.set(widx, DYNAMIC_SHADOW_MARK);
                                    }
                                },
                                None => {},
                            }
                            if !blocked {
                                let q = shade_unit_shadow_pixel(buf[idx]);
                                buf.set(idx, q);
                            }
                        },
                        None => {},
                    }
                },
                None => {},
            }
            proof {
                if in_grid(gw, gh, wx as int, wy as int) {
                    lemma_cell(gw, gh, wx as int, wy as int);
                }
                if in_grid(gvw, gvh, x as int, y as int) {
                    lemma_cell(gvw, gvh, x as int, y as int);
                }
                if x >= 0 {
                    lemma_unit_shadow_source(gx, dx as int, rise as int, x as int);
                }
                assert forall|k: int| 0 <= k < w * h implies #[trigger] mask@[k]
                    == unit_shadow_mask_scan(
                    mask0[k],
                    in_grid(gvw, gvh, col_of(gw, k) - ox, row_of(gw, k) - oy),
                    unit_shadow_done(
                        image,
                        *frame,
                        gx,
                        gy,
                        col_of(gw, k) - ox,
                        row_of(gw, k) - oy,
                        dx + 1,
                        dy as int,
                    ),
                ) by {
                    lemma_index(gw, gh, k);
                    let kx = col_of(gw, k) - ox;
                    let ky = row_of(gw, k) - oy;
                    if kx >= 0 {
                        lemma_unit_shadow_source(gx, dx as int, rise as int, kx);
                    }
                    assert(mask1[k] == unit_shadow_mask_scan(
                        mask0[k],
                        in_grid(gvw, gvh, kx, ky),
                        unit_shadow_done(image, *frame, gx, gy, kx, ky, dx as int, dy as int),
                    ));
                }
                assert forall|k: int| 0 <= k < vw * vh implies #[trigger] buf@[k]
                    == unit_shadow_image_scan(
                    buf0[k],
                    unit_shadow_done(
                        image,
                        *frame,
                        gx,
                        gy,
                        col_of(gvw, k),
                        row_of(gvw, k),
                        dx + 1,
                        dy as int,
                    ),
                    unit_shadow_blocked(
                        shadow@,
                        mask0,
                        gw,
                        gh,
                        ox + col_of(gvw, k),
                        oy + row_of(gvw, k),
                    ),
                ) by {
                    lemma_index(gvw, gvh, k);
                    if in_grid(gw, gh, wx as int, wy as int) {
                        let wk = cell(gw, wx as int, wy as int);
                        assert(mask1[wk] == unit_shadow_mask_scan(
                            mask0[wk],
                            in_grid(gvw, gvh, col_of(gw, wk) - ox, row_of(gw, wk) - oy),
                            unit_shadow_done(
                                image,
                                *frame,
                                gx,
                                gy,
                                col_of(gw, wk) - ox,
                                row_of(gw, wk) - oy,
                                dx as int,
                                dy as int,
                            ),
                        ));
                    }
                    let kx = col_of(gvw, k);
                    let ky = row_of(gvw, k);
                    lemma_unit_shadow_source(gx, dx as int, rise as int, kx);
                    assert(buf1[k] == unit_shadow_image_scan(
                        buf0[k],
                        unit_shadow_done(image, *frame, gx, gy, kx, ky, dx as int, dy as int),
                        unit_shadow_blocked(shadow@, mask0, gw, gh, ox + kx, oy + ky),
                    ));
                }
            }
            dx += 1;
        }
        dy += 1;
    }
    assert(mask@ =~= unit_shadow_mask(
        mask0,
        gw,
        gvw,
        gvh,
        image,
        *frame,
        gx,
        gy,
        ox as int,
        oy as int,
    ));
    assert(buf@ =~= unit_shadow_image(
        buf0,
        gvw,
        mask0,
        shadow@,
        gw,
        gh,
        image,
        *frame,
        gx,
        gy,
        ox as int,
        oy as int,
    ));
}

} // verus!
