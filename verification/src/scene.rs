//! Where things stand: the camera's window on the world, the isometric
//! position of map items, and the screen position of moving entities.

use crate::atlas::Atlas;
use crate::blit::{grid_cell, SCREEN_LIMIT, WORLD_LIMIT};
use crate::camera::{to_pixels, whole_pixels, Camera};
use crate::depth::{depth_order, depth_sorted, is_depth_order, lemma_depth_order, DepthKey};
use crate::gamemap::{Object, Tile};
use crate::grid::{
    cell, cell_index, col_of, in_grid, lemma_cell, lemma_index, row_of, scanned_cell,
};
use crate::pass::{stamps_fit, Stamp};
use crate::render::RenderableEntity;
use vstd::prelude::*;

verus! {

/// The colour of a viewport pixel that shows no part of the world.
pub const BACKGROUND: u32 = 0;

/// The world pixel at `(x, y)`, or the background outside the world.
pub open spec fn view_pixel(world: Seq<u32>, w: int, h: int, x: int, y: int) -> u32 {
    if in_grid(w, h, x, y) {
        world[cell(w, x, y)]
    } else {
        BACKGROUND
    }
}

/// The camera's window on the world: viewport pixel `(i, j)` shows world
/// pixel `(view_left + i, view_top + j)`.
pub open spec fn viewport(world: Seq<u32>, w: int, h: int, camera: Camera) -> Seq<u32> {
    Seq::new(
        camera.area() as nat,
        |k: int|
            view_pixel(
                world,
                w,
                h,
                camera.view_left() + col_of(camera.width as int, k),
                camera.view_top() + row_of(camera.width as int, k),
            ),
    )
}

/// The viewport copy is a window function: pixel `(i, j)` of the viewport is
/// the world pixel at `(floor(cx - w / 2) + i, floor(cy - h / 2) + j)` where
/// that lies inside the world, and the background elsewhere.
pub proof fn lemma_viewport_window(
    world: Seq<u32>,
    w: int,
    h: int,
    camera: Camera,
    i: int,
    j: int,
)
    requires
        in_grid(camera.width as int, camera.height as int, i, j),
    ensures
        0 <= cell(camera.width as int, i, j) < viewport(world, w, h, camera).len(),
        viewport(world, w, h, camera)[cell(camera.width as int, i, j)] == view_pixel(
            world,
            w,
            h,
            camera.view_left() + i,
            camera.view_top() + j,
        ),
        in_grid(w, h, camera.view_left() + i, camera.view_top() + j) ==> viewport(
            world,
            w,
            h,
            camera,
        )[cell(camera.width as int, i, j)] == world[cell(
            w,
            camera.view_left() + i,
            camera.view_top() + j,
        )],
        !in_grid(w, h, camera.view_left() + i, camera.view_top() + j) ==> viewport(
            world,
            w,
            h,
            camera,
        )[cell(camera.width as int, i, j)] == BACKGROUND,
{
    lemma_cell(camera.width as int, camera.height as int, i, j);
}

/// Fills `buf` with the camera's window on the world.
pub(crate) fn copy_view(
    buf: &mut Vec<u32>,
    world: &Vec<u32>,
    w: usize,
    h: usize,
    camera: &Camera,
)
    requires
        old(buf)@.len() == camera.area(),
        world@.len() == w * h,
    ensures
        final(buf)@ == viewport(world@, w as int, h as int, *camera),
{
    let left: i128 = camera.left() as i128;
    let top: i128 = camera.top() as i128;
    let vw: usize = camera.width as usize;
    let vh: usize = camera.height as usize;
    assert(buf@.len() <= usize::MAX) by {
        vstd::std_specs::vec::axiom_spec_len(buf);
    }
    assert(world@.len() <= usize::MAX) by {
        vstd::std_specs::vec::axiom_spec_len(world);
    }
    let mut j: usize = 0;
    while j < vh
        invariant
            j <= vh,
            vw == camera.width,
            vh == camera.height,
            left == camera.view_left(),
            top == camera.view_top(),
            buf@.len() == vw * vh,
            vw * vh <= usize::MAX,
            world@.len() == w * h,
            w * h <= usize::MAX,
            forall|k: int|
                0 <= k < vw * vh && scanned_cell(vw as int, k, 0, j as int) ==> #[trigger] buf@[k]
                    == view_pixel(
                    world@,
                    w as int,
                    h as int,
                    left + col_of(vw as int, k),
                    top + row_of(vw as int, k),
                ),
        decreases vh - j,
    {
        let mut i: usize = 0;
        while i < vw
            invariant
                i <= vw,
                j < vh,
                vw == camera.width,
                vh == camera.height,
                left == camera.view_left(),
                top == camera.view_top(),
                buf@.len() == vw * vh,
                vw * vh <= usize::MAX,
                world@.len() == w * h,
                w * h <= usize::MAX,
                forall|k: int|
                    0 <= k < vw * vh && scanned_cell(vw as int, k, i as int, j as int)
                        ==> #[trigger] buf@[k] == view_pixel(
                        world@,
                        w as int,
                        h as int,
                        left + col_of(vw as int, k),
                        top + row_of(vw as int, k),
                    ),
            decreases vw - i,
        {
            let ghost mid = buf@;
            let k0 = cell_index(vw, vh, i, j);
            let v: u32 = match grid_cell(w, h, left + i as i128, top + j as i128) {
                Some(wk) => world[wk],
                None => BACKGROUND,
            };
            buf.set(k0, v);
            proof {
                lemma_cell(vw as int, vh as int, i as int, j as int);
                assert forall|k: int|
                    0 <= k < vw * vh && scanned_cell(
                        vw as int,
                        k,
                        i + 1,
                        j as int,
                    ) implies #[trigger] buf@[k] == view_pixel(
                    world@,
                    w as int,
                    h as int,
                    left + col_of(vw as int, k),
                    top + row_of(vw as int, k),
                ) by {
                    lemma_index(vw as int, vh as int, k);
                    if k != k0 {
                        assert(mid[k] == buf@[k]);
                    }
                }
            }
            i += 1;
        }
        proof {
            assert forall|k: int|
                0 <= k < vw * vh && scanned_cell(vw as int, k, 0, j + 1) implies #[trigger] buf@[k]
                == view_pixel(
                world@,
                w as int,
                h as int,
                left + col_of(vw as int, k),
                top + row_of(vw as int, k),
            ) by {
                lemma_index(vw as int, vh as int, k);
            }
        }
        j += 1;
    }
    proof {
        assert forall|k: int| 0 <= k < vw * vh implies #[trigger] buf@[k] == view_pixel(
            world@,
            w as int,
            h as int,
            left + col_of(vw as int, k),
            top + row_of(vw as int, k),
        ) by {
            lemma_index(vw as int, vh as int, k);
        }
        assert(buf@ =~= viewport(world@, w as int, h as int, *camera));
    }
}

/// What the renderer reads of a tile or an object: grid column, grid row and
/// the name of its sprite.
pub type MapItem = (u32, u32, Seq<char>);

/// The items that a list of tiles stands for.
pub open spec fn tile_items(tiles: Seq<Tile>) -> Seq<MapItem> {
    Seq::new(tiles.len(), |i: int| (tiles[i].x, tiles[i].y, tiles[i].asset@))
}

/// The items that a list of objects stands for.
pub open spec fn object_items(objects: Seq<Object>) -> Seq<MapItem> {
    Seq::new(objects.len(), |i: int| (objects[i].x, objects[i].y, objects[i].asset@))
}

/// Depth keys of map items: the sum of column and row, so that what lies
/// farther back is drawn first.
pub open spec fn item_keys(items: Seq<MapItem>) -> Seq<DepthKey> {
    Seq::new(items.len(), |i: int| ((items[i].0 + items[i].1) as i64, 0i64))
}

/// Isometric screen column of a frame `fw` wide at grid cell `(gx, gy)`, on
/// a world `w` wide.
pub open spec fn iso_x(gx: int, gy: int, fw: int, w: int) -> int {
    (gx - gy) * (fw / 2) + w / 2
}

/// Isometric screen row of a frame `fh` high at grid cell `(gx, gy)`, on a
/// world `h` high whose tiles are `tile_size` pixels.
pub open spec fn iso_y(gx: int, gy: int, fh: int, h: int, tile_size: int) -> int {
    (gx + gy) * (fh / 4) + (h / 2 - tile_size) - fh / 2
}

/// The stamp of a map item: its frame at its isometric position. There is
/// none when the atlas has no frame of that name.
pub open spec fn map_stamp(atlas: Atlas, item: MapItem, w: int, h: int) -> Option<Stamp> {
    match atlas.frame_of(item.2) {
        Some(frame) => Some(
            Stamp {
                frame,
                sx: iso_x(item.0 as int, item.1 as int, frame.w as int, w) as i128,
                sy: iso_y(
                    item.0 as int,
                    item.1 as int,
                    frame.h as int,
                    h,
                    atlas.tile_size as int,
                ) as i128,
            },
        ),
        None => None,
    }
}

/// The stamps of the first `n` items of `order`, skipping items whose sprite
/// the atlas does not know.
pub open spec fn map_stamps(
    atlas: Atlas,
    items: Seq<MapItem>,
    w: int,
    h: int,
    order: Seq<usize>,
    n: nat,
) -> Seq<Stamp>
    decreases n,
{
    if n == 0 {
        Seq::empty()
    } else {
        let rest = map_stamps(atlas, items, w, h, order, (n - 1) as nat);
        match map_stamp(atlas, items[order[n - 1] as int], w, h) {
            Some(stamp) => rest.push(stamp),
            None => rest,
        }
    }
}

/// All stamps of a list of map items, in drawing order.
pub open spec fn ordered_map_stamps(atlas: Atlas, items: Seq<MapItem>, w: int, h: int) -> Seq<
    Stamp,
> {
    map_stamps(atlas, items, w, h, depth_order(item_keys(items)), items.len())
}

/// Places one map item on the world.
pub(crate) fn place_on_map(atlas: &Atlas, x: u32, y: u32, asset: &str, w: usize, h: usize) -> (r:
    Option<Stamp>)
    requires
        atlas.wf(),
        w <= WORLD_LIMIT,
        h <= WORLD_LIMIT,
    ensures
        r == map_stamp(*atlas, (x, y, asset@), w as int, h as int),
        r matches Some(s) ==> -SCREEN_LIMIT <= s.sx <= SCREEN_LIMIT && -SCREEN_LIMIT <= s.sy
            <= SCREEN_LIMIT,
{
    match atlas.get_frame(asset) {
        Some(frame) => {
            let gx: i128 = x as i128;
            let gy: i128 = y as i128;
            let half_w: i128 = (frame.w / 2) as i128;
            let quarter_h: i128 = (frame.h / 4) as i128;
            assert(-0x1_0000_0000_0000_0000 <= (gx - gy) * half_w <= 0x1_0000_0000_0000_0000)
                by (nonlinear_arith)
                requires
                    -0x1_0000_0000 <= gx - gy <= 0x1_0000_0000,
                    0 <= half_w <= 0x1_0000_0000,
            ;
            assert(0 <= (gx + gy) * quarter_h <= 0x2_0000_0000_0000_0000) by (nonlinear_arith)
                requires
                    0 <= gx + gy <= 0x2_0000_0000,
                    0 <= quarter_h <= 0x1_0000_0000,
            ;
            let sx: i128 = (gx - gy) * half_w + (w / 2) as i128;
            let sy: i128 = (gx + gy) * quarter_h + ((h / 2) as i128 - atlas.tile_size as i128) - (
            frame.h / 2) as i128;
            Some(Stamp { frame: frame.clone(), sx, sy })
        },
        None => None,
    }
}

/// What kind of unit a sprite shows.
#[derive(Clone, Copy, Debug, PartialEq, Eq, Structural)]
pub enum UnitKind {
    /// The unit that the player steers.
    Player,
    /// Any other unit.
    Mob,
}

/// The name of a unit's frame in the entity atlas: the model of its kind,
/// then the animation frame, which alternates with every animation cycle.
pub open spec fn unit_sprite(kind: UnitKind, cycles: u32) -> Seq<char> {
    match kind {
        UnitKind::Player => if cycles % 2 == 0 {
            "knight_0_0"@
        } else {
            "knight_0_1"@
        },
        UnitKind::Mob => if cycles % 2 == 0 {
            "imp_20_0"@
        } else {
            "imp_20_1"@
        },
    }
}

/// Names the frame that shows a unit of `kind` in animation cycle `cycles`.
pub fn sprite_name(kind: UnitKind, cycles: u32) -> (name: String)
    ensures
        name@ == unit_sprite(kind, cycles),
{
    let even = cycles % 2 == 0;
    match kind {
        UnitKind::Player => if even {
            "knight_0_0".to_owned()
        } else {
            "knight_0_1".to_owned()
        },
        UnitKind::Mob => if even {
            "imp_20_0".to_owned()
        } else {
            "imp_20_1".to_owned()
        },
    }
}

/// Depth keys of moving entities: world `y` first, then world `x`.
pub open spec fn entity_keys(entities: Seq<RenderableEntity>) -> Seq<DepthKey> {
    Seq::new(entities.len(), |i: int| (entities[i].y as i64, entities[i].x as i64))
}

/// Screen column of the left edge of an entity's frame: the entity's whole
/// pixels relative to the camera's, moved by half the viewport and back by
/// half the frame.
pub open spec fn entity_screen_x(x: int, camera: Camera, fw: int) -> int {
    whole_pixels(x) - whole_pixels(camera.center_x as int) + camera.width as int / 2 - fw / 2
}

/// Screen row of the top edge of an entity's frame. The sprite is centred on
/// the entity (`feet` is false); its shadow is cast from a frame that stands
/// with its bottom edge on the entity's row (`feet` is true).
pub open spec fn entity_screen_y(y: int, camera: Camera, fh: int, feet: bool) -> int {
    whole_pixels(y) - whole_pixels(camera.center_y as int) + camera.height as int / 2 - (if feet {
        fh
    } else {
        fh / 2
    })
}

/// The stamp of an entity on the screen; none when the atlas has no frame of
/// the entity's sprite name.
pub open spec fn entity_stamp(
    atlas: Atlas,
    entity: RenderableEntity,
    camera: Camera,
    feet: bool,
) -> Option<Stamp> {
    match atlas.frame_of(entity.sprite_name@) {
        Some(frame) => Some(
            Stamp {
                frame,
                sx: entity_screen_x(entity.x as int, camera, frame.w as int) as i128,
                sy: entity_screen_y(entity.y as int, camera, frame.h as int, feet) as i128,
            },
        ),
        None => None,
    }
}

/// The stamps of the first `n` entities of `order`, skipping entities whose
/// sprite the atlas does not know.
pub open spec fn entity_stamps(
    atlas: Atlas,
    entities: Seq<RenderableEntity>,
    camera: Camera,
    feet: bool,
    order: Seq<usize>,
    n: nat,
) -> Seq<Stamp>
    decreases n,
{
    if n == 0 {
        Seq::empty()
    } else {
        let rest = entity_stamps(atlas, entities, camera, feet, order, (n - 1) as nat);
        match entity_stamp(atlas, entities[order[n - 1] as int], camera, feet) {
            Some(stamp) => rest.push(stamp),
            None => rest,
        }
    }
}

/// All stamps of a list of entities, in depth order.
pub open spec fn ordered_entity_stamps(
    atlas: Atlas,
    entities: Seq<RenderableEntity>,
    camera: Camera,
    feet: bool,
) -> Seq<Stamp> {
    entity_stamps(
        atlas,
        entities,
        camera,
        feet,
        depth_order(entity_keys(entities)),
        entities.len(),
    )
}

/// Entities are listed back to front: a smaller world `y` comes first, on
/// equal `y` a smaller world `x`, and entities at one position keep the order
/// in which they were given.
pub proof fn lemma_entity_depth_order(entities: Seq<RenderableEntity>, a: int, b: int)
    requires
        entities.len() <= usize::MAX,
        0 <= a < entities.len(),
        0 <= b < entities.len(),
    ensures
        ({
            let order = depth_order(entity_keys(entities));
            let first = entities[order[a] as int];
            let second = entities[order[b] as int];
            &&& is_depth_order(entity_keys(entities), order)
            &&& first.y < second.y ==> a < b
            &&& first.y == second.y && first.x < second.x ==> a < b
            &&& first.y == second.y && first.x == second.x && order[a] < order[b] ==> a < b
        }),
{
    let keys = entity_keys(entities);
    lemma_depth_order(keys);
    let order = depth_order(keys);
    assert(order[a] < entities.len() && order[b] < entities.len());
}

/// The stamps of the first `a` entities are the first stamps of any longer
/// part of the order.
pub proof fn lemma_entity_stamps_prefix(
    atlas: Atlas,
    entities: Seq<RenderableEntity>,
    camera: Camera,
    feet: bool,
    order: Seq<usize>,
    a: nat,
    n: nat,
)
    requires
        a <= n,
    ensures
        entity_stamps(atlas, entities, camera, feet, order, a).len() <= entity_stamps(
            atlas,
            entities,
            camera,
            feet,
            order,
            n,
        ).len(),
        forall|i: int|
            0 <= i < entity_stamps(atlas, entities, camera, feet, order, a).len()
                ==> #[trigger] entity_stamps(atlas, entities, camera, feet, order, n)[i]
                == entity_stamps(atlas, entities, camera, feet, order, a)[i],
    decreases n,
{
    if a < n {
        lemma_entity_stamps_prefix(atlas, entities, camera, feet, order, a, (n - 1) as nat);
    }
}

/// Of two entities whose sprites the atlas knows, the one that comes first in
/// depth order is stamped first, so the other is drawn over it.
pub proof fn lemma_entities_stamped_in_depth_order(
    atlas: Atlas,
    entities: Seq<RenderableEntity>,
    camera: Camera,
    feet: bool,
    a: nat,
    b: nat,
)
    requires
        a < b < entities.len(),
        entity_stamp(
            atlas,
            entities[depth_order(entity_keys(entities))[a as int] as int],
            camera,
            feet,
        ) is Some,
        entity_stamp(
            atlas,
            entities[depth_order(entity_keys(entities))[b as int] as int],
            camera,
            feet,
        ) is Some,
    ensures
        ({
            let order = depth_order(entity_keys(entities));
            let stamps = ordered_entity_stamps(atlas, entities, camera, feet);
            let ia = entity_stamps(atlas, entities, camera, feet, order, a).len() as int;
            let ib = entity_stamps(atlas, entities, camera, feet, order, b).len() as int;
            &&& ia < ib < stamps.len()
            &&& Some(stamps[ia]) == entity_stamp(atlas, entities[order[a as int] as int], camera, feet)
            &&& Some(stamps[ib]) == entity_stamp(atlas, entities[order[b as int] as int], camera, feet)
        }),
{
    let order = depth_order(entity_keys(entities));
    let n = entities.len();
    lemma_entity_stamps_prefix(atlas, entities, camera, feet, order, a + 1, b);
    lemma_entity_stamps_prefix(atlas, entities, camera, feet, order, b + 1, n);
    lemma_entity_stamps_prefix(atlas, entities, camera, feet, order, a + 1, n);
    let upto_a = entity_stamps(atlas, entities, camera, feet, order, a);
    let with_a = entity_stamps(atlas, entities, camera, feet, order, a + 1);
    let upto_b = entity_stamps(atlas, entities, camera, feet, order, b);
    let with_b = entity_stamps(atlas, entities, camera, feet, order, b + 1);
    assert(with_a == upto_a.push(
        entity_stamp(atlas, entities[order[a as int] as int], camera, feet).unwrap(),
    ));
    assert(with_b == upto_b.push(
        entity_stamp(atlas, entities[order[b as int] as int], camera, feet).unwrap(),
    ));
    assert(with_a[upto_a.len() as int] == entity_stamp(
        atlas,
        entities[order[a as int] as int],
        camera,
        feet,
    ).unwrap());
    assert(with_b[upto_b.len() as int] == entity_stamp(
        atlas,
        entities[order[b as int] as int],
        camera,
        feet,
    ).unwrap());
}

/// Places one entity on the screen.
pub(crate) fn place_on_screen(
    atlas: &Atlas,
    entity: &RenderableEntity,
    camera: &Camera,
    feet: bool,
) -> (r: Option<Stamp>)
    requires
        atlas.wf(),
    ensures
        r == entity_stamp(*atlas, *entity, *camera, feet),
        r matches Some(s) ==> -SCREEN_LIMIT <= s.sx <= SCREEN_LIMIT && -SCREEN_LIMIT <= s.sy
            <= SCREEN_LIMIT,
{
    match atlas.get_frame(entity.sprite_name.as_str()) {
        Some(frame) => {
            let dx: i128 = to_pixels(entity.x) as i128 - to_pixels(camera.center_x) as i128;
            let dy: i128 = to_pixels(entity.y) as i128 - to_pixels(camera.center_y) as i128;
            let sx: i128 = dx + (camera.width / 2) as i128 - (frame.w / 2) as i128;
            let lift: i128 = if feet {
                frame.h as i128
            } else {
                (frame.h / 2) as i128
            };
            let sy: i128 = dy + (camera.height / 2) as i128 - lift;
            Some(Stamp { frame: frame.clone(), sx, sy })
        },
        None => None,
    }
}

/// The stamps of all tiles, in drawing order.
pub(crate) fn tile_stamps(tiles: &Vec<Tile>, atlas: &Atlas, w: usize, h: usize) -> (stamps: Vec<
    Stamp,
>)
    requires
        atlas.wf(),
        w <= WORLD_LIMIT,
        h <= WORLD_LIMIT,
    ensures
        stamps@ == ordered_map_stamps(*atlas, tile_items(tiles@), w as int, h as int),
        stamps_fit(stamps@),
{
    let ghost items = tile_items(tiles@);
    let mut keys: Vec<DepthKey> = Vec::new();
    let mut i: usize = 0;
    while i < tiles.len()
        invariant
            i <= tiles@.len(),
            keys@.len() == i,
            forall|j: int| 0 <= j < i ==> #[trigger] keys@[j] == item_keys(tile_items(tiles@))[j],
        decreases tiles@.len() - i,
    {
        keys.push((tiles[i].x as i64 + tiles[i].y as i64, 0));
        i += 1;
    }
    assert(keys@ =~= item_keys(items));
    let order = depth_sorted(&keys);
    let mut stamps: Vec<Stamp> = Vec::new();
    let mut n: usize = 0;
    while n < order.len()
        invariant
            n <= order@.len(),
            order@.len() == tiles@.len(),
            items == tile_items(tiles@),
            is_depth_order(item_keys(items), order@),
            atlas.wf(),
            w <= WORLD_LIMIT,
            h <= WORLD_LIMIT,
            stamps@ == map_stamps(*atlas, items, w as int, h as int, order@, n as nat),
            stamps_fit(stamps@),
        decreases order@.len() - n,
    {
        let tile = &tiles[order[n]];
        match place_on_map(atlas, tile.x, tile.y, tile.asset.as_str(), w, h) {
            Some(stamp) => {
                stamps.push(stamp);
            },
            None => {},
        }
        n += 1;
    }
    stamps
}

/// The stamps of all objects, in drawing order.
pub(crate) fn object_stamps(objects: &Vec<Object>, atlas: &Atlas, w: usize, h: usize) -> (stamps:
    Vec<Stamp>)
    requires
        atlas.wf(),
        w <= WORLD_LIMIT,
        h <= WORLD_LIMIT,
    ensures
        stamps@ == ordered_map_stamps(*atlas, object_items(objects@), w as int, h as int),
        stamps_fit(stamps@),
{
    let ghost items = object_items(objects@);
    let mut keys: Vec<DepthKey> = Vec::new();
    let mut i: usize = 0;
    while i < objects.len()
        invariant
            i <= objects@.len(),
            keys@.len() == i,
            forall|j: int|
                0 <= j < i ==> #[trigger] keys@[j] == item_keys(object_items(objects@))[j],
        decreases objects@.len() - i,
    {
        keys.push((objects[i].x as i64 + objects[i].y as i64, 0));
        i += 1;
    }
    assert(keys@ =~= item_keys(items));
    let order = depth_sorted(&keys);
    let mut stamps: Vec<Stamp> = Vec::new();
    let mut n: usize = 0;
    while n < order.len()
        invariant
            n <= order@.len(),
            order@.len() == objects@.len(),
            items == object_items(objects@),
            is_depth_order(item_keys(items), order@),
            atlas.wf(),
            w <= WORLD_LIMIT,
            h <= WORLD_LIMIT,
            stamps@ == map_stamps(*atlas, items, w as int, h as int, order@, n as nat),
            stamps_fit(stamps@),
        decreases order@.len() - n,
    {
        let object = &objects[order[n]];
        match place_on_map(atlas, object.x, object.y, object.asset.as_str(), w, h) {
            Some(stamp) => {
                stamps.push(stamp);
            },
            None => {},
        }
        n += 1;
    }
    stamps
}

/// The depth order of a list of entities.
pub(crate) fn entity_order(entities: &Vec<RenderableEntity>) -> (order: Vec<usize>)
    ensures
        order@ == depth_order(entity_keys(entities@)),
        is_depth_order(entity_keys(entities@), order@),
        order@.len() == entities@.len(),
{
    let mut keys: Vec<DepthKey> = Vec::new();
    let mut i: usize = 0;
    while i < entities.len()
        invariant
            i <= entities@.len(),
            keys@.len() == i,
            forall|j: int| 0 <= j < i ==> #[trigger] keys@[j] == entity_keys(entities@)[j],
        decreases entities@.len() - i,
    {
        keys.push((entities[i].y as i64, entities[i].x as i64));
        i += 1;
    }
    assert(keys@ =~= entity_keys(entities@));
    depth_sorted(&keys)
}

/// The stamps of all entities, in the given depth order.
pub(crate) fn screen_stamps(
    entities: &Vec<RenderableEntity>,
    order: &Vec<usize>,
    atlas: &Atlas,
    camera: &Camera,
    feet: bool,
) -> (stamps: Vec<Stamp>)
    requires
        atlas.wf(),
        order@ == depth_order(entity_keys(entities@)),
        is_depth_order(entity_keys(entities@), order@),
    ensures
        stamps@ == ordered_entity_stamps(*atlas, entities@, *camera, feet),
        stamps_fit(stamps@),
{
    let mut stamps: Vec<Stamp> = Vec::new();
    let mut n: usize = 0;
    while n < order.len()
        invariant
            n <= order@.len(),
            order@.len() == entities@.len(),
            is_depth_order(entity_keys(entities@), order@),
            atlas.wf(),
            stamps@ == entity_stamps(*atlas, entities@, *camera, feet, order@, n as nat),
            stamps_fit(stamps@),
        decreases order@.len() - n,
    {
        let entity = &entities[order[n]];
        match place_on_screen(atlas, entity, camera, feet) {
            Some(stamp) => {
                stamps.push(stamp);
            },
            None => {},
        }
        n += 1;
    }
    stamps
}

} // verus!
