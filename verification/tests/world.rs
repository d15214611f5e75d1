use ferari::gamemap::Meta;
use ferari::{Atlas, AtlasImage, Frame, GameMap, Object, Render, Tile};

const RED: u32 = 0xFFFF_0000;
const BLUE: u32 = 0xFF00_00FF;

/// An atlas of two opaque 4 by 4 frames side by side, "red" and "blue", with
/// tiles of 4 pixels.
fn two_colour_atlas() -> Atlas {
    let mut data = Vec::new();
    for _y in 0..4 {
        for x in 0..8 {
            if x < 4 {
                data.extend_from_slice(&[255, 0, 0, 255]);
            } else {
                data.extend_from_slice(&[0, 0, 255, 255]);
            }
        }
    }
    let image = AtlasImage::from_raw(8, 4, data).unwrap();
    let mut atlas = Atlas::new(image, 4, 1);
    atlas.insert_frame("red".into(), Frame { name: "red".into(), x: 0, y: 0, w: 4, h: 4 });
    atlas.insert_frame("blue".into(), Frame { name: "blue".into(), x: 4, y: 0, w: 4, h: 4 });
    atlas
}

fn empty_map() -> GameMap {
    GameMap::new(Meta { name: "test".to_string(), tile_size: 4, size: [2, 2] })
}

fn tile(x: u32, y: u32, asset: &str) -> Tile {
    Tile { name: format!("tile_{x}_{y}"), x, y, asset: asset.to_string() }
}

fn object(x: u32, y: u32, asset: &str) -> Object {
    Object {
        name: format!("obj_{x}_{y}"),
        x,
        y,
        asset: asset.to_string(),
        collidable: false,
        shadow: false,
    }
}

/// A renderer over an empty 16 by 16 world.
fn empty_world() -> Render {
    Render::new(vec![0; 256], 16, 16, two_colour_atlas(), vec![0; 256])
}

/// The rectangle of a 4 by 4 frame at cell `(gx, gy)` of a 16 by 16 world
/// with tiles of 4 pixels: `(x - y) * 2 + 8`, `(x + y) * 1 + (8 - 4) - 2`.
fn cells_of(gx: i32, gy: i32) -> Vec<usize> {
    let sx = (gx - gy) * 2 + 8;
    let sy = (gx + gy) + 2;
    let mut cells = Vec::new();
    for y in sy..sy + 4 {
        for x in sx..sx + 4 {
            if (0..16).contains(&x) && (0..16).contains(&y) {
                cells.push((y * 16 + x) as usize);
            }
        }
    }
    cells
}

#[test]
fn empty_map_leaves_the_world_as_it_is() {
    let world: Vec<u32> = (0..256).collect();
    let mut render = Render::new(world.clone(), 16, 16, two_colour_atlas(), vec![0; 256]);
    render.init(&empty_map(), &two_colour_atlas());
    assert_eq!(render.world_buf, world);
    assert_eq!(render.shadow_map, vec![0; 256]);
}

#[test]
fn tile_stands_at_its_isometric_position() {
    let mut map = empty_map();
    map.tiles.push(tile(0, 0, "red"));
    let mut render = empty_world();
    render.init(&map, &two_colour_atlas());
    let cells = cells_of(0, 0);
    assert_eq!(cells[0], 2 * 16 + 8);
    for k in 0..256 {
        let expected = if cells.contains(&k) { RED } else { 0 };
        assert_eq!(render.world_buf[k], expected, "at {k}");
    }
    assert_eq!(render.shadow_map, vec![0; 256]);
}

#[test]
fn tiles_farther_back_are_drawn_first() {
    let atlas = two_colour_atlas();
    // (1, 0) overlaps (0, 0) and lies in front of it, whatever the order of the list.
    for tiles in [
        vec![tile(1, 0, "red"), tile(0, 0, "blue")],
        vec![tile(0, 0, "blue"), tile(1, 0, "red")],
    ] {
        let mut map = empty_map();
        map.tiles = tiles;
        let mut render = empty_world();
        render.init(&map, &atlas);
        let back = cells_of(0, 0);
        let front = cells_of(1, 0);
        assert!(back.iter().any(|k| front.contains(k)));
        for k in 0..256 {
            let expected = if front.contains(&k) {
                RED
            } else if back.contains(&k) {
                BLUE
            } else {
                0
            };
            assert_eq!(render.world_buf[k], expected, "at {k}");
        }
    }
}

#[test]
fn tiles_of_equal_depth_are_drawn_in_list_order() {
    let atlas = two_colour_atlas();
    let mut map = empty_map();
    // Two tiles on one cell, between a tile behind and a tile in front of them.
    map.tiles = vec![tile(1, 2, "red"), tile(1, 1, "red"), tile(1, 1, "blue"), tile(0, 1, "red")];
    let mut render = empty_world();
    render.init(&map, &atlas);
    let front = cells_of(1, 2);
    let shared: Vec<usize> =
        cells_of(1, 1).into_iter().filter(|k| !front.contains(k)).collect();
    assert!(!shared.is_empty());
    for &k in &shared {
        assert_eq!(render.world_buf[k], BLUE);
    }
    map.tiles.swap(1, 2);
    let mut render = empty_world();
    render.init(&map, &atlas);
    for &k in &shared {
        assert_eq!(render.world_buf[k], RED);
    }
}

#[test]
fn items_with_unknown_sprites_are_skipped() {
    let mut map = empty_map();
    map.tiles = vec![tile(0, 0, "green"), tile(1, 0, "")];
    map.objects = vec![object(0, 0, "RED")];
    let mut render = empty_world();
    render.init(&map, &two_colour_atlas());
    assert_eq!(render.world_buf, vec![0; 256]);
    assert_eq!(render.shadow_map, vec![0; 256]);
}

#[test]
fn tiles_far_outside_the_world_are_clipped() {
    let mut map = empty_map();
    map.tiles = vec![tile(u32::MAX, 0, "red"), tile(0, u32::MAX, "red"), tile(9, 9, "blue")];
    map.objects = vec![object(u32::MAX, u32::MAX, "red")];
    let mut render = empty_world();
    render.init(&map, &two_colour_atlas());
    assert_eq!(render.world_buf, vec![0; 256]);
    assert_eq!(render.shadow_map, vec![0; 256]);
}

#[test]
fn object_casts_a_blurred_shadow_and_stands_on_top() {
    let atlas = two_colour_atlas();
    let mut map = empty_map();
    map.tiles = vec![tile(0, 0, "blue")];
    map.objects = vec![object(0, 0, "red")];
    let mut render = Render::new(vec![0xFF64_6464; 256], 16, 16, atlas.clone(), vec![0; 256]);
    render.init(&map, &atlas);

    // The object's frame stands at (8, 2); its shadow is cast before the blur.
    let mut cast = vec![0u8; 256];
    for (y, first) in [(2usize, 10usize), (3, 9), (4, 9), (5, 8)] {
        for x in first..first + 4 {
            cast[y * 16 + x] = 8;
        }
    }
    let mut blurred = cast.clone();
    for y in 1..15usize {
        for x in 1..15usize {
            if cast[y * 16 + x] > 0 {
                let mut sum = 0u32;
                for ny in y - 1..=y + 1 {
                    for nx in x - 1..=x + 1 {
                        sum += cast[ny * 16 + nx] as u32;
                    }
                }
                blurred[y * 16 + x] = (sum / 9) as u8;
            }
        }
    }
    assert_eq!(render.shadow_map, blurred);
    // At (11, 3) all nine neighbours are shadowed, at (10, 3) eight, at the corner three.
    assert_eq!(render.shadow_map[3 * 16 + 11], 8);
    assert_eq!(render.shadow_map[3 * 16 + 10], 7);
    assert_eq!(render.shadow_map[2 * 16 + 13], 2);

    let sprite = cells_of(0, 0);
    for k in 0..256 {
        let expected = if sprite.contains(&k) {
            RED
        } else if cast[k] > 0 {
            // 100 * (1275 - 16) / 1275 = 98.7
            0xFF62_6262
        } else {
            0xFF64_6464
        };
        assert_eq!(render.world_buf[k], expected, "at {k}");
    }
}

#[test]
fn shadows_of_all_objects_are_cast_before_any_object_is_drawn() {
    let atlas = two_colour_atlas();
    let mut map = empty_map();
    // The shadow of (0, 0) reaches to column 13 in row 2; (1, 0) stands at (10, 3).
    map.objects = vec![object(1, 0, "blue"), object(0, 0, "red")];
    let mut render = Render::new(vec![0xFF64_6464; 256], 16, 16, atlas.clone(), vec![0; 256]);
    render.init(&map, &atlas);
    let back = cells_of(0, 0);
    let front = cells_of(1, 0);
    for k in 0..256 {
        if front.contains(&k) {
            assert_eq!(render.world_buf[k], BLUE, "at {k}");
        } else if back.contains(&k) {
            assert_eq!(render.world_buf[k], RED, "at {k}");
        }
    }
    // Where both shadows fall the map was deepened twice before the blur.
    assert!(render.shadow_map.iter().any(|&v| v > 8));
    assert!(render.shadow_map.iter().all(|&v| v <= 48));
}

#[test]
fn building_keeps_the_unit_mask_and_the_atlas() {
    let atlas = two_colour_atlas();
    let mut map = empty_map();
    map.objects = vec![object(0, 0, "red")];
    let mut render = empty_world();
    render.init(&map, &atlas);
    assert_eq!(render.dynamic_shadow_buf, vec![0; 256]);
    assert_eq!(render.world_width, 16);
    assert_eq!(render.world_height, 16);
    assert_eq!(render.entity_atlas.frame_count(), 2);
}
