//! Random scenes rendered twice: by the library, and by a rendering written
//! out below in floating point. Colours may differ by rounding; where pixels
//! go may not.

use ferari::gamemap::Meta;
use ferari::{Atlas, AtlasImage, Camera, Frame, GameMap, Object, Render, RenderableEntity, Tile};

/// A small deterministic generator.
struct Rng(u64);

impl Rng {
    fn next(&mut self) -> u64 {
        self.0 = self.0.wrapping_mul(6364136223846793005).wrapping_add(1442695040888963407);
        self.0 >> 33
    }

    fn below(&mut self, n: u64) -> u64 {
        self.next() % n
    }

    fn between(&mut self, lo: i64, hi: i64) -> i64 {
        lo + self.below((hi - lo + 1) as u64) as i64
    }
}

/// An atlas image as plain samples, and the frames cut from it.
struct Sheet {
    width: u32,
    height: u32,
    data: Vec<u8>,
    frames: Vec<(String, Frame)>,
}

impl Sheet {
    fn random(rng: &mut Rng) -> Sheet {
        let width = rng.between(1, 9) as u32;
        let height = rng.between(1, 7) as u32;
        let mut data = Vec::new();
        for _ in 0..width * height {
            let alpha = [0u8, 0, 1, 128, 254, 255, 255, 255][rng.below(8) as usize];
            data.push(rng.below(256) as u8);
            data.push(rng.below(256) as u8);
            data.push(rng.below(256) as u8);
            data.push(alpha);
        }
        let mut frames = Vec::new();
        for i in 0..4 {
            let frame = Frame {
                name: format!("f{i}"),
                x: rng.below(width as u64 + 1) as u32,
                y: rng.below(height as u64 + 1) as u32,
                w: rng.between(0, 7) as u32,
                h: rng.between(0, 7) as u32,
            };
            frames.push((format!("f{i}"), frame));
        }
        Sheet { width, height, data, frames }
    }

    fn atlas(&self, tile_size: u32) -> Atlas {
        let image = AtlasImage::from_raw(self.width, self.height, self.data.clone()).unwrap();
        let mut atlas = Atlas::new(image, tile_size, 1);
        for (key, frame) in &self.frames {
            atlas.insert_frame(key.clone(), frame.clone());
        }
        atlas
    }

    fn frame(&self, name: &str) -> Option<&Frame> {
        self.frames.iter().find(|(key, _)| key == name).map(|(_, frame)| frame)
    }

    /// The pixel that offset `(dx, dy)` of a frame reads, if it is visible.
    fn visible(&self, frame: &Frame, dx: i32, dy: i32) -> Option<[u8; 4]> {
        let x = frame.x as i64 + dx as i64;
        let y = frame.y as i64 + dy as i64;
        if x < 0 || y < 0 || x >= self.width as i64 || y >= self.height as i64 {
            return None;
        }
        let i = ((y * self.width as i64 + x) * 4) as usize;
        let px = [self.data[i], self.data[i + 1], self.data[i + 2], self.data[i + 3]];
        if px[3] == 0 {
            None
        } else {
            Some(px)
        }
    }
}

fn channels(p: u32) -> [f32; 3] {
    [((p >> 16) & 0xFF) as f32, ((p >> 8) & 0xFF) as f32, (p & 0xFF) as f32]
}

fn opaque(c: [f32; 3]) -> u32 {
    (0xFF << 24) | ((c[0] as u32) << 16) | ((c[1] as u32) << 8) | (c[2] as u32)
}

/// Whether two pixels have the same alpha and colours within `slack`.
fn close(a: u32, b: u32, slack: i64) -> bool {
    a >> 24 == b >> 24
        && (0..3).all(|i| {
            let shift = 8 * i;
            (((a >> shift) & 0xFF) as i64 - ((b >> shift) & 0xFF) as i64).abs() <= slack
        })
}

struct Scene {
    w: usize,
    h: usize,
    world: Vec<u32>,
    shadow: Vec<u8>,
}

impl Scene {
    fn random(rng: &mut Rng) -> Scene {
        let w = rng.between(0, 14) as usize;
        let h = rng.between(0, 11) as usize;
        let world = (0..w * h).map(|_| rng.next() as u32).collect();
        let shadow = (0..w * h).map(|_| [0u8, 0, 8, 16, 17, 40, 48][rng.below(7) as usize]).collect();
        Scene { w, h, world, shadow }
    }

    fn inside(&self, x: i32, y: i32) -> bool {
        x >= 0 && y >= 0 && (x as usize) < self.w && (y as usize) < self.h
    }
}

/// One frame in floating point: returns the output and the shadow mask.
fn float_frame(
    scene: &Scene,
    sheet: &Sheet,
    entities: &[(f32, f32, String)],
    cx: f32,
    cy: f32,
    vw: u16,
    vh: u16,
) -> (Vec<u32>, Vec<u8>) {
    let (vw, vh) = (vw as i32, vh as i32);
    let mut buf = vec![0u32; (vw * vh) as usize];
    let left = (cx - vw as f32 / 2.0).floor() as i32;
    let top = (cy - vh as f32 / 2.0).floor() as i32;
    for j in 0..vh {
        for i in 0..vw {
            if scene.inside(left + i, top + j) {
                buf[(j * vw + i) as usize] =
                    scene.world[(top + j) as usize * scene.w + (left + i) as usize];
            }
        }
    }

    let mut sorted: Vec<&(f32, f32, String)> = entities.iter().collect();
    sorted.sort_by(|a, b| a.1.partial_cmp(&b.1).unwrap().then(a.0.partial_cmp(&b.0).unwrap()));

    let origin_x = cx as i32 - vw / 2;
    let origin_y = cy as i32 - vh / 2;
    let mut mask = vec![0u8; scene.w * scene.h];

    for (ex, ey, name) in sorted.iter().copied() {
        let Some(frame) = sheet.frame(name) else { continue };
        let sx = (*ex as i32 - cx as i32) + vw / 2 - frame.w as i32 / 2;
        let sy = (*ey as i32 - cy as i32) + vh / 2 - frame.h as i32;
        for dy in 0..frame.h as i32 {
            for dx in 0..frame.w as i32 {
                if sheet.visible(frame, dx, dy).is_none() {
                    continue;
                }
                let reach = (frame.h as f32 - dy as f32) * 0.5;
                let x = (sx as f32 + dx as f32 + reach).round() as i32;
                let y = sy + dy;
                if x < 0 || y < 0 || x >= vw || y >= vh {
                    continue;
                }
                let (wx, wy) = (origin_x + x, origin_y + y);
                let mut blocked = false;
                if scene.inside(wx, wy) {
                    let k = wy as usize * scene.w + wx as usize;
                    if scene.shadow[k] > 16 {
                        blocked = true;
                    }
                    if mask[k] > 0 {
                        blocked = true;
                    } else {
                        mask[k] = 64;
                    }
                }
                if !blocked {
                    let k = (y * vw + x) as usize;
                    buf[k] = opaque(channels(buf[k]).map(|c| c * 0.5));
                }
            }
        }
    }

    for (ex, ey, name) in sorted.iter().copied() {
        let Some(frame) = sheet.frame(name) else { continue };
        let sx = (*ex as i32 - cx as i32) + vw / 2 - frame.w as i32 / 2;
        let sy = (*ey as i32 - cy as i32) + vh / 2 - frame.h as i32 / 2;
        for dy in 0..frame.h as i32 {
            for dx in 0..frame.w as i32 {
                let Some(px) = sheet.visible(frame, dx, dy) else { continue };
                let (x, y) = (sx + dx, sy + dy);
                if x < 0 || y < 0 || x >= vw || y >= vh {
                    continue;
                }
                let (wx, wy) = (origin_x + x, origin_y + y);
                let intensity = if scene.inside(wx, wy) {
                    scene.shadow[wy as usize * scene.w + wx as usize] as f32 / 255.0
                } else {
                    0.0
                };
                let brightness = 1.0 - 0.6 * intensity;
                let alpha = px[3] as f32 / 255.0;
                let k = (y * vw + x) as usize;
                let dst = channels(buf[k]);
                let mut out = [0f32; 3];
                for c in 0..3 {
                    let src = ((px[c] as f32 * brightness) as u32) as f32;
                    out[c] = (src * alpha + dst[c] * (1.0 - alpha)).min(255.0);
                }
                buf[k] = opaque(out);
            }
        }
    }
    (buf, mask)
}

#[test]
fn frames_agree_with_a_floating_point_rendering() {
    let mut rng = Rng(2024);
    for round in 0..300 {
        let scene = Scene::random(&mut rng);
        let sheet = Sheet::random(&mut rng);
        let vw = rng.between(0, 12) as u16;
        let vh = rng.between(0, 9) as u16;
        // Centres and positions on quarter pixels, also left of and above the world.
        let cx = rng.between(-24, 80) as f32 / 4.0;
        let cy = rng.between(-24, 64) as f32 / 4.0;
        let mut entities = Vec::new();
        for _ in 0..rng.below(5) {
            let x = rng.between(-24, 80) as f32 / 4.0;
            let y = rng.between(-24, 64) as f32 / 4.0;
            entities.push((x, y, format!("f{}", rng.below(5))));
        }

        let (expected, expected_mask) = float_frame(&scene, &sheet, &entities, cx, cy, vw, vh);

        let mut render = Render::new(
            scene.world.clone(),
            scene.h,
            scene.w,
            sheet.atlas(4),
            scene.shadow.clone(),
        );
        let camera = Camera::new((cx * 256.0) as i32, (cy * 256.0) as i32, vw, vh);
        let list: Vec<RenderableEntity> = entities
            .iter()
            .map(|(x, y, name)| {
                RenderableEntity::with_sprite((x * 256.0) as i32, (y * 256.0) as i32, name)
            })
            .collect();
        let mut buf = vec![0x5555_5555u32; vw as usize * vh as usize];
        render.render_frame(&list, &camera, &mut buf).unwrap();

        assert_eq!(render.dynamic_shadow_buf, expected_mask, "round {round}");
        for k in 0..buf.len() {
            assert!(
                close(buf[k], expected[k], 1),
                "round {round} at {k}: {:08x} and {:08x}",
                buf[k],
                expected[k]
            );
        }
    }
}

/// The world built in floating point: returns the image and the shadow map.
fn float_world(
    scene: &Scene,
    sheet: &Sheet,
    tile_size: u32,
    tiles: &[(u32, u32, String)],
    objects: &[(u32, u32, String)],
) -> (Vec<u32>, Vec<u8>) {
    let (w, h) = (scene.w as i32, scene.h as i32);
    let mut world = scene.world.clone();
    let mut shadow = scene.shadow.clone();
    let offset_x = w / 2;
    let offset_y = h / 2 - tile_size as i32;
    let place = |x: u32, y: u32, frame: &Frame| {
        let (fw, fh) = (frame.w as i32, frame.h as i32);
        (
            (x as i32 - y as i32) * (fw / 2) + offset_x,
            (x as i32 + y as i32) * (fh / 4) + offset_y - fh / 2,
        )
    };
    let copy = |world: &mut Vec<u32>, frame: &Frame, sx: i32, sy: i32| {
        for dy in 0..frame.h as i32 {
            for dx in 0..frame.w as i32 {
                let Some(px) = sheet.visible(frame, dx, dy) else { continue };
                if scene.inside(sx + dx, sy + dy) {
                    world[(sy + dy) as usize * scene.w + (sx + dx) as usize] = (px[3] as u32)
                        << 24
                        | (px[0] as u32) << 16
                        | (px[1] as u32) << 8
                        | px[2] as u32;
                }
            }
        }
    };

    let mut sorted: Vec<&(u32, u32, String)> = tiles.iter().collect();
    sorted.sort_by_key(|t| t.0 + t.1);
    for (x, y, name) in sorted.iter().copied() {
        let Some(frame) = sheet.frame(name) else { continue };
        let (sx, sy) = place(*x, *y, frame);
        copy(&mut world, frame, sx, sy);
    }

    let mut sorted: Vec<&(u32, u32, String)> = objects.iter().collect();
    sorted.sort_by_key(|t| t.0 + t.1);
    for (x, y, name) in sorted.iter().copied() {
        let Some(frame) = sheet.frame(name) else { continue };
        let (sx, sy) = place(*x, *y, frame);
        for dy in 0..frame.h as i32 {
            for dx in 0..frame.w as i32 {
                if sheet.visible(frame, dx, dy).is_none() {
                    continue;
                }
                let reach = (frame.h as f32 - dy as f32) * 0.5;
                let px = sx + dx + reach as i32;
                let py = sy + dy;
                if !scene.inside(px, py) {
                    continue;
                }
                let k = py as usize * scene.w + px as usize;
                shadow[k] = shadow[k].saturating_add(8).min(48);
                let factor = 1.0 - 0.4 * (shadow[k] as f32 / 255.0);
                world[k] = opaque(channels(world[k]).map(|c| c * factor));
            }
        }
    }

    let before = shadow.clone();
    for y in 1..h - 1 {
        for x in 1..w - 1 {
            let k = (y * w + x) as usize;
            if before[k] > 0 {
                let mut sum = 0u32;
                for ny in y - 1..=y + 1 {
                    for nx in x - 1..=x + 1 {
                        sum += before[(ny * w + nx) as usize] as u32;
                    }
                }
                shadow[k] = (sum / 9) as u8;
            }
        }
    }

    for (x, y, name) in sorted.iter().copied() {
        let Some(frame) = sheet.frame(name) else { continue };
        let (sx, sy) = place(*x, *y, frame);
        copy(&mut world, frame, sx, sy);
    }
    (world, shadow)
}

#[test]
fn worlds_agree_with_a_floating_point_building() {
    let mut rng = Rng(77);
    for round in 0..300 {
        let scene = Scene::random(&mut rng);
        let sheet = Sheet::random(&mut rng);
        let tile_size = rng.between(0, 5) as u32;
        let mut tiles = Vec::new();
        for _ in 0..rng.below(6) {
            tiles.push((rng.below(5) as u32, rng.below(5) as u32, format!("f{}", rng.below(5))));
        }
        let mut objects = Vec::new();
        for _ in 0..rng.below(4) {
            objects.push((rng.below(5) as u32, rng.below(5) as u32, format!("f{}", rng.below(5))));
        }

        let (expected_world, expected_shadow) =
            float_world(&scene, &sheet, tile_size, &tiles, &objects);

        let atlas = sheet.atlas(tile_size);
        let mut map = GameMap::new(Meta { name: "random".to_string(), tile_size, size: [5, 5] });
        for (i, (x, y, asset)) in tiles.iter().enumerate() {
            map.tiles.push(Tile { name: format!("tile_{i}"), x: *x, y: *y, asset: asset.clone() });
        }
        for (i, (x, y, asset)) in objects.iter().enumerate() {
            map.objects.push(Object {
                name: format!("obj_{i}"),
                x: *x,
                y: *y,
                asset: asset.clone(),
                collidable: false,
                shadow: i % 2 == 0,
            });
        }
        let mut render = Render::new(
            scene.world.clone(),
            scene.h,
            scene.w,
            sheet.atlas(4),
            scene.shadow.clone(),
        );
        render.init(&map, &atlas);

        assert_eq!(render.shadow_map, expected_shadow, "round {round}");
        for k in 0..expected_world.len() {
            assert!(
                close(render.world_buf[k], expected_world[k], 1),
                "round {round} at {k}: {:08x} and {:08x}",
                render.world_buf[k],
                expected_world[k]
            );
        }
    }
}
