use ferari::scene::{sprite_name, UnitKind};
use ferari::{Atlas, AtlasImage, Camera, Frame, Render, RenderError, RenderableEntity};

const RED: u32 = 0xFFFF_0000;
const BLUE: u32 = 0xFF00_00FF;
const SHADE: u32 = 0xFF00_0000;

/// An atlas of two opaque 4 by 4 frames side by side: "red" and "blue".
fn two_colour_atlas() -> Atlas {
    let mut data = Vec::new();
    for _y in 0..4 {
        for x in 0..8 {
            if x < 4 {
                data.extend_from_slice(&[255, 0, 0, 255]);
            } else {
                data.extend_from_slice(&[0, 0, 255, 255]);
            }
        }
    }
    let image = AtlasImage::from_raw(8, 4, data).unwrap();
    let mut atlas = Atlas::new(image, 4, 1);
    atlas.insert_frame("red".into(), Frame { name: "red".into(), x: 0, y: 0, w: 4, h: 4 });
    atlas.insert_frame("blue".into(), Frame { name: "blue".into(), x: 4, y: 0, w: 4, h: 4 });
    atlas
}

/// A renderer over an empty 10 by 10 world.
fn empty_world() -> Render {
    Render::new(vec![0; 100], 10, 10, two_colour_atlas(), vec![0; 100])
}

fn centred_camera() -> Camera {
    Camera::new(5 * 256, 5 * 256, 10, 10)
}

fn entity(x: i32, y: i32, sprite: &str) -> RenderableEntity {
    RenderableEntity::with_sprite(x * 256, y * 256, sprite)
}

#[test]
fn frame_of_wrong_size_is_refused() {
    let mut render = empty_world();
    let cam = centred_camera();
    for len in [0usize, 99, 101, 1000] {
        let mut buf = vec![0xDEAD_BEEFu32; len];
        let result = render.render_frame(&vec![entity(5, 5, "red")], &cam, &mut buf);
        assert_eq!(result, Err(RenderError::BufferSize));
        assert_eq!(buf, vec![0xDEAD_BEEFu32; len]);
        assert_eq!(render.dynamic_shadow_buf, vec![0; 100]);
    }
    let mut buf = vec![0u32; 100];
    assert_eq!(render.render_frame(&vec![], &cam, &mut buf), Ok(()));
}

#[test]
fn empty_viewport_takes_an_empty_buffer() {
    let mut render = empty_world();
    let mut buf: Vec<u32> = Vec::new();
    assert_eq!(render.render_frame(&vec![], &Camera::new(0, 0, 0, 7), &mut buf), Ok(()));
    assert_eq!(render.render_frame(&vec![], &Camera::new(0, 0, 7, 0), &mut buf), Ok(()));
    let mut buf = vec![0u32; 1];
    assert_eq!(
        render.render_frame(&vec![], &Camera::new(0, 0, 0, 7), &mut buf),
        Err(RenderError::BufferSize)
    );
}

#[test]
fn viewport_is_a_window_on_the_world() {
    // A 4 by 3 world whose pixel at (x, y) is 1 + 4y + x.
    let world: Vec<u32> = (1..=12).collect();
    let mut render = Render::new(world.clone(), 3, 4, two_colour_atlas(), vec![0; 12]);

    // Centre (2, 1.5): the window is the world.
    let mut buf = vec![77u32; 12];
    render.render_frame(&vec![], &Camera::new(2 * 256, 384, 4, 3), &mut buf).unwrap();
    assert_eq!(buf, world);

    // Centre (0, 0): the corner is (floor(-2), floor(-1.5)) = (-2, -2).
    let mut buf = vec![77u32; 12];
    render.render_frame(&vec![], &Camera::new(0, 0, 4, 3), &mut buf).unwrap();
    assert_eq!(buf, vec![0, 0, 0, 0, 0, 0, 0, 0, 0, 0, 1, 2]);

    // Centre (3.5, 2.25), viewport 3 by 2: the corner is (floor(2), floor(1.25)) = (2, 1).
    let mut buf = vec![77u32; 6];
    render.render_frame(&vec![], &Camera::new(896, 576, 3, 2), &mut buf).unwrap();
    assert_eq!(buf, vec![7, 8, 0, 11, 12, 0]);

    // Far away from the world everything is background.
    let mut buf = vec![77u32; 12];
    render.render_frame(&vec![], &Camera::new(i32::MAX, i32::MIN, 4, 3), &mut buf).unwrap();
    assert_eq!(buf, vec![0; 12]);
}

#[test]
fn viewport_wider_than_the_world_shows_it_once() {
    let world: Vec<u32> = vec![5, 6];
    let mut render = Render::new(world, 1, 2, two_colour_atlas(), vec![0; 2]);
    let mut buf = vec![9u32; 12];
    // Corner (floor(1 - 2), floor(0.5 - 1.5)) = (-1, -1).
    render.render_frame(&vec![], &Camera::new(256, 128, 4, 3), &mut buf).unwrap();
    assert_eq!(buf, vec![0, 0, 0, 0, 0, 5, 6, 0, 0, 0, 0, 0]);
}

#[test]
fn sprite_is_centred_and_its_shadow_stands_on_its_row() {
    let mut render = empty_world();
    let mut buf = vec![0u32; 100];
    render.render_frame(&vec![entity(5, 5, "red")], &centred_camera(), &mut buf).unwrap();

    let mut expected = vec![0u32; 100];
    // The shadow's frame stands at (3, 1): its rows 1..5 fall on columns 5, 5, 4, 4 onward.
    for (y, first) in [(1usize, 5usize), (2, 5), (3, 4), (4, 4)] {
        for x in first..first + 4 {
            expected[y * 10 + x] = SHADE;
        }
    }
    // The sprite stands at (3, 3).
    for y in 3..7 {
        for x in 3..7 {
            expected[y * 10 + x] = RED;
        }
    }
    assert_eq!(buf, expected);

    let mut mask = vec![0u8; 100];
    for (y, first) in [(1usize, 5usize), (2, 5), (3, 4), (4, 4)] {
        for x in first..first + 4 {
            mask[y * 10 + x] = 64;
        }
    }
    assert_eq!(render.dynamic_shadow_buf, mask);
}

#[test]
fn mask_is_cleared_at_the_start_of_every_frame() {
    let mut render = empty_world();
    let cam = centred_camera();
    let mut first = vec![0u32; 100];
    render.render_frame(&vec![entity(5, 5, "red")], &cam, &mut first).unwrap();
    let mut second = vec![1u32; 100];
    render.render_frame(&vec![entity(5, 5, "red")], &cam, &mut second).unwrap();
    assert_eq!(first, second);
    let mut third = vec![1u32; 100];
    render.render_frame(&vec![], &cam, &mut third).unwrap();
    assert_eq!(third, vec![0u32; 100]);
    assert_eq!(render.dynamic_shadow_buf, vec![0; 100]);
}

#[test]
fn entity_with_an_unknown_sprite_is_skipped() {
    let world: Vec<u32> = (0..100).map(|k| 0xFF00_0000 | k).collect();
    let mut render = Render::new(world.clone(), 10, 10, two_colour_atlas(), vec![0; 100]);
    let mut buf = vec![0u32; 100];
    let entities = vec![entity(5, 5, "green"), entity(2, 2, ""), entity(7, 7, "Red")];
    render.render_frame(&entities, &centred_camera(), &mut buf).unwrap();
    assert_eq!(buf, world);
    assert_eq!(render.dynamic_shadow_buf, vec![0; 100]);
}

#[test]
fn entity_lower_on_the_screen_is_drawn_in_front() {
    let mut render = empty_world();
    let cam = centred_camera();
    // Given front first; the order of the list must not matter.
    for entities in [
        vec![entity(5, 6, "blue"), entity(5, 5, "red")],
        vec![entity(5, 5, "red"), entity(5, 6, "blue")],
    ] {
        let mut buf = vec![0u32; 100];
        render.render_frame(&entities, &cam, &mut buf).unwrap();
        for x in 3..7 {
            assert_eq!(buf[3 * 10 + x], RED);
            for y in 4..8 {
                assert_eq!(buf[y * 10 + x], BLUE, "at ({x}, {y})");
            }
        }
    }
}

#[test]
fn entities_on_one_row_are_drawn_left_to_right() {
    let mut render = empty_world();
    let cam = centred_camera();
    for entities in [
        vec![entity(6, 5, "red"), entity(5, 5, "blue")],
        vec![entity(5, 5, "blue"), entity(6, 5, "red")],
    ] {
        let mut buf = vec![0u32; 100];
        render.render_frame(&entities, &cam, &mut buf).unwrap();
        for y in 3..7 {
            assert_eq!(buf[y * 10 + 3], BLUE);
            for x in 4..8 {
                assert_eq!(buf[y * 10 + x], RED, "at ({x}, {y})");
            }
        }
    }
}

#[test]
fn entities_at_one_place_are_drawn_in_list_order() {
    let mut render = empty_world();
    let cam = centred_camera();
    let mut buf = vec![0u32; 100];
    render
        .render_frame(&vec![entity(5, 5, "red"), entity(5, 5, "blue")], &cam, &mut buf)
        .unwrap();
    assert_eq!(buf[4 * 10 + 4], BLUE);
    render
        .render_frame(&vec![entity(5, 5, "blue"), entity(5, 5, "red")], &cam, &mut buf)
        .unwrap();
    assert_eq!(buf[4 * 10 + 4], RED);
}

#[test]
fn depth_is_decided_below_whole_pixels() {
    let mut render = empty_world();
    let cam = centred_camera();
    // Both stand on pixel row 5; the blue one is a quarter pixel lower.
    let entities = vec![
        RenderableEntity::with_sprite(5 * 256, 5 * 256 + 64, "blue"),
        RenderableEntity::with_sprite(5 * 256, 5 * 256, "red"),
    ];
    let mut buf = vec![0u32; 100];
    render.render_frame(&entities, &cam, &mut buf).unwrap();
    assert_eq!(buf[4 * 10 + 4], BLUE);
}

#[test]
fn no_sprite_is_shadowed_by_another_entity() {
    let mut render = empty_world();
    let cam = centred_camera();
    // The red entity's shadow is cast from (3, 2) and falls on columns 4 to 8 of rows 2 to
    // 5, where the blue sprite stands at (5, 2). The red sprite stands at (3, 4), in front.
    let entities = vec![entity(5, 6, "red"), entity(7, 4, "blue")];
    let mut buf = vec![0u32; 100];
    render.render_frame(&entities, &cam, &mut buf).unwrap();
    for y in 2..6 {
        for x in 5..9 {
            let expected = if y >= 4 && x < 7 { RED } else { BLUE };
            assert_eq!(buf[y * 10 + x], expected, "at ({x}, {y})");
        }
    }
    // Beside the sprites the shadow shows.
    assert_eq!(buf[3 * 10 + 4], 0);
    assert_eq!(buf[4 * 10 + 4], RED);
    assert_eq!(buf[2 * 10 + 9], SHADE);
}

#[test]
fn overlapping_unit_shadows_darken_once() {
    let world = vec![0xFFC8_C8C8u32; 100];
    let mut render = Render::new(world, 10, 10, two_colour_atlas(), vec![0; 100]);
    let entities = vec![entity(3, 3, "red"), entity(3, 3, "blue")];
    let mut buf = vec![0u32; 100];
    // The camera stands so that the sprites lie outside the view and their shadows inside.
    let cam = Camera::new(5 * 256, 3 * 256, 10, 4);
    let mut small = vec![0u32; 40];
    render.render_frame(&entities, &cam, &mut small).unwrap();
    assert!(small.iter().all(|&p| p == 0xFFC8_C8C8 || p == 0xFF64_6464 || p == BLUE));
    assert!(small.iter().any(|&p| p == 0xFF64_6464));
    render.render_frame(&entities, &Camera::new(5 * 256, 5 * 256, 10, 10), &mut buf).unwrap();
    assert!(buf.iter().all(|&p| p == 0xFFC8_C8C8 || p == 0xFF64_6464 || p == BLUE));
}

#[test]
fn sprite_follows_the_camera() {
    let mut render = empty_world();
    // The entity stands on the camera's centre wherever that is.
    for (cx, cy) in [(0, 0), (-40, 7), (1000, -1000), (3, 9)] {
        let cam = Camera::new(cx * 256, cy * 256, 10, 10);
        let mut buf = vec![0u32; 100];
        render.render_frame(&vec![entity(cx, cy, "red")], &cam, &mut buf).unwrap();
        for y in 3..7 {
            for x in 3..7 {
                assert_eq!(buf[y * 10 + x], RED, "camera ({cx}, {cy}) at ({x}, {y})");
            }
        }
        assert_eq!(buf[2 * 10 + 3], 0);
        assert_eq!(buf[7 * 10 + 3], 0);
    }
    // One pixel to the right and two down of the centre.
    let cam = Camera::new(20 * 256, 20 * 256, 10, 10);
    let mut buf = vec![0u32; 100];
    render.render_frame(&vec![entity(21, 22, "red")], &cam, &mut buf).unwrap();
    let lit: Vec<usize> = (0..100).filter(|&k| buf[k] == RED).collect();
    let mut expected = Vec::new();
    for y in 5..9 {
        for x in 4..8 {
            expected.push(y * 10 + x);
        }
    }
    assert_eq!(lit, expected);
}

#[test]
fn world_and_shadow_map_survive_a_frame() {
    let world: Vec<u32> = (0..100).map(|k| 0xFF00_0000 | (k * 3)).collect();
    let shadow: Vec<u8> = (0..100).map(|k| (k % 49) as u8).collect();
    let mut render = Render::new(world.clone(), 10, 10, two_colour_atlas(), shadow.clone());
    let mut buf = vec![0u32; 100];
    render
        .render_frame(&vec![entity(5, 5, "red"), entity(2, 8, "blue")], &centred_camera(), &mut buf)
        .unwrap();
    assert_eq!(render.world_buf, world);
    assert_eq!(render.shadow_map, shadow);
}

#[test]
fn entity_constructors_agree() {
    let a = RenderableEntity::new(12, -34, "knight_0_0".to_string());
    let b = RenderableEntity::with_sprite(12, -34, "knight_0_0");
    assert_eq!((a.x, a.y, a.sprite_name.as_str()), (12, -34, "knight_0_0"));
    assert_eq!((b.x, b.y, b.sprite_name.as_str()), (12, -34, "knight_0_0"));
}

#[test]
fn sprite_names_alternate_with_the_animation_cycle() {
    assert_eq!(sprite_name(UnitKind::Player, 0), "knight_0_0");
    assert_eq!(sprite_name(UnitKind::Player, 1), "knight_0_1");
    assert_eq!(sprite_name(UnitKind::Player, 2), "knight_0_0");
    assert_eq!(sprite_name(UnitKind::Mob, 0), "imp_20_0");
    assert_eq!(sprite_name(UnitKind::Mob, 7), "imp_20_1");
    assert_eq!(sprite_name(UnitKind::Mob, u32::MAX), "imp_20_1");
}
