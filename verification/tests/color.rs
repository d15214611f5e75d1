use ferari::color::{
    alpha, blend_unit_pixel, blue, copy_pixel, green, pack_argb, red, shade_unit_shadow_pixel,
    shade_world_pixel, Rgba,
};

#[test]
fn pack_puts_alpha_in_the_top_byte() {
    assert_eq!(pack_argb(0x12, 0x34, 0x56, 0x78), 0x1234_5678);
    assert_eq!(pack_argb(255, 0, 0, 0), 0xFF00_0000);
    assert_eq!(pack_argb(0, 0, 0, 0), 0);
    assert_eq!(pack_argb(255, 255, 255, 255), u32::MAX);
}

#[test]
fn channels_come_back_out_of_a_packed_pixel() {
    let p = 0x1234_5678;
    assert_eq!(alpha(p), 0x12);
    assert_eq!(red(p), 0x34);
    assert_eq!(green(p), 0x56);
    assert_eq!(blue(p), 0x78);
    assert_eq!(alpha(u32::MAX), 255);
    assert_eq!(red(0), 0);
}

#[test]
fn copy_keeps_all_four_channels() {
    assert_eq!(copy_pixel(Rgba { r: 1, g: 2, b: 3, a: 4 }), 0x0401_0203);
    assert_eq!(copy_pixel(Rgba { r: 255, g: 0, b: 0, a: 255 }), 0xFFFF_0000);
}

#[test]
fn world_shading_takes_two_fifths_at_full_shadow() {
    // 100 * (1275 - 2 * 48) / 1275 = 92.47
    assert_eq!(shade_world_pixel(0x0064_6464, 48), 0xFF5C_5C5C);
    // No shadow leaves the colour and forces alpha.
    assert_eq!(shade_world_pixel(0x00C8_6432, 0), 0xFFC8_6432);
    // 255 * (1275 - 510) / 1275 = 153
    assert_eq!(shade_world_pixel(0xFFFF_FFFF, 255), 0xFF99_9999);
    // 200 * 1259 / 1275 = 197.49, 100 * 1259 / 1275 = 98.7, 50 * 1259 / 1275 = 49.4
    assert_eq!(shade_world_pixel(0x00C8_6432, 8), 0xFFC5_6231);
}

#[test]
fn unit_shadow_halves_each_colour() {
    assert_eq!(shade_unit_shadow_pixel(0x00C8_6432), 0xFF64_3219);
    assert_eq!(shade_unit_shadow_pixel(0x1201_0101), 0xFF00_0000);
    assert_eq!(shade_unit_shadow_pixel(0xFFFF_FFFF), 0xFF7F_7F7F);
}

#[test]
fn opaque_unit_pixel_replaces_the_destination() {
    let red_pixel = Rgba { r: 255, g: 0, b: 0, a: 255 };
    assert_eq!(blend_unit_pixel(red_pixel, 0, 0), 0xFFFF_0000);
    assert_eq!(blend_unit_pixel(red_pixel, 0x1234_5678, 0), 0xFFFF_0000);
}

#[test]
fn unit_pixel_is_dimmed_by_three_fifths_at_full_shadow() {
    // 255 * 510 / 1275 = 102, 100 * 510 / 1275 = 40, 50 * 510 / 1275 = 20
    let p = Rgba { r: 255, g: 100, b: 50, a: 255 };
    assert_eq!(blend_unit_pixel(p, 0, 255), 0xFF66_2814);
    // 255 * (1275 - 144) / 1275 = 226.2, 100 * 1131 / 1275 = 88.7, 50 * 1131 / 1275 = 44.35
    assert_eq!(blend_unit_pixel(p, 0, 48), 0xFFE2_582C);
}

#[test]
fn half_transparent_unit_pixel_mixes_with_the_destination() {
    // (200 * 128 + 100 * 127) / 255 = 150.19
    // (0 * 128 + 255 * 127) / 255 = 127
    // (255 * 128 + 0 * 127) / 255 = 128
    let p = Rgba { r: 200, g: 0, b: 255, a: 128 };
    assert_eq!(blend_unit_pixel(p, 0x0064_FF00, 0), 0xFF96_7F80);
    // Alpha 1 keeps nearly all of the destination: (200 + 100 * 254) / 255 = 100.39
    let faint = Rgba { r: 200, g: 200, b: 200, a: 1 };
    assert_eq!(blend_unit_pixel(faint, 0x0064_6464, 0), 0xFF64_6464);
}

#[test]
fn dimming_stays_within_one_of_the_real_factor() {
    for shadow in 0u32..=255 {
        for c in 0u32..=255 {
            let unit = red(blend_unit_pixel(
                Rgba { r: c as u8, g: 0, b: 0, a: 255 },
                0,
                shadow as u8,
            )) as i64;
            let real = c as f64 * (1.0 - 0.6 * shadow as f64 / 255.0);
            assert!((unit as f64) <= real + 1e-9 && real < unit as f64 + 1.0);

            let world = red(shade_world_pixel(c << 16, shadow as u8)) as i64;
            let real = c as f64 * (1.0 - 0.4 * shadow as f64 / 255.0);
            assert!((world as f64) <= real + 1e-9 && real < world as f64 + 1.0);
        }
    }
}

#[test]
fn blending_lies_between_source_and_destination() {
    for a in 0u32..=255 {
        for (src, dst) in [(0u8, 255u8), (255, 0), (17, 200), (200, 17), (90, 90)] {
            let out = red(blend_unit_pixel(
                Rgba { r: src, g: 0, b: 0, a: a as u8 },
                (dst as u32) << 16,
                0,
            ));
            assert!(out >= src.min(dst) && out <= src.max(dst));
            let real = (src as f64 * a as f64 + dst as f64 * (255.0 - a as f64)) / 255.0;
            assert_eq!(out as f64, real.floor());
        }
    }
}
