use shotori::pixels::{
    Transform, convert_to_rgba, crop_rect, dst_row_left_right, rgba_to_rgb, rotate_rgba, rotated_size,
};

/// 3×2 pixel grid, values encode coordinates (x*10+y).
fn grid(w: u32, h: u32) -> Vec<u8> {
    let mut v = Vec::new();
    for y in 0..h {
        for x in 0..w {
            v.extend_from_slice(&[x as u8 * 10 + y as u8, 0, 0, 255]);
        }
    }
    v
}

fn px_at(rgba: &[u8], w: u32, x: u32, y: u32) -> u8 {
    rgba[(y * w + x) as usize * 4]
}

#[test]
fn rotate_90_clockwise() {
    let out = rotate_rgba(grid(3, 2), 3, 2, Transform::Rot90);
    assert_eq!(out.len(), grid(3, 2).len());
    assert_eq!(px_at(&out, 2, 0, 0), 1);
    assert_eq!(px_at(&out, 2, 1, 0), 0);
    assert_eq!(px_at(&out, 2, 0, 1), 11);
    assert_eq!(px_at(&out, 2, 1, 2), 20);
}

#[test]
fn rotate_270_counter_clockwise() {
    let out = rotate_rgba(grid(3, 2), 3, 2, Transform::Rot270);
    assert_eq!(px_at(&out, 2, 0, 0), 20);
    assert_eq!(px_at(&out, 2, 1, 0), 21);
    assert_eq!(px_at(&out, 2, 0, 2), 0);
    assert_eq!(px_at(&out, 2, 1, 2), 1);
}

#[test]
fn rotate_180() {
    let out = rotate_rgba(grid(3, 2), 3, 2, Transform::Rot180);
    assert_eq!(px_at(&out, 3, 0, 0), 21);
    assert_eq!(px_at(&out, 3, 2, 1), 0);
    assert_eq!(px_at(&out, 3, 2, 0), 1);
    assert_eq!(px_at(&out, 3, 0, 1), 20);
}

#[test]
fn rotate_swaps_size() {
    assert_eq!(rotated_size(3, 2, Transform::Normal), (3, 2));
    assert_eq!(rotated_size(3, 2, Transform::Rot90), (2, 3));
    assert_eq!(rotated_size(3, 2, Transform::Rot270), (2, 3));
    assert_eq!(rotated_size(3, 2, Transform::Rot180), (3, 2));
}

#[test]
fn flipped_family_follows_the_unflipped_rotation() {
    assert_eq!(rotated_size(3, 2, Transform::Flipped), (3, 2));
    assert_eq!(rotated_size(3, 2, Transform::Flipped90), (2, 3));
    assert_eq!(rotated_size(3, 2, Transform::Flipped180), (3, 2));
    assert_eq!(rotated_size(3, 2, Transform::Flipped270), (2, 3));
    assert_eq!(rotate_rgba(grid(3, 2), 3, 2, Transform::Flipped), grid(3, 2));
    assert_eq!(
        rotate_rgba(grid(3, 2), 3, 2, Transform::Flipped90),
        rotate_rgba(grid(3, 2), 3, 2, Transform::Rot90)
    );
}

#[test]
fn rot90_then_rot270_restores_the_buffer() {
    let once = rotate_rgba(grid(3, 2), 3, 2, Transform::Rot90);
    let twice = rotate_rgba(once, 2, 3, Transform::Rot270);
    assert_eq!(twice, grid(3, 2));
    let half = rotate_rgba(grid(3, 2), 3, 2, Transform::Rot180);
    assert_eq!(rotate_rgba(half, 3, 2, Transform::Rot180), grid(3, 2));
}

#[test]
fn bytes_past_the_pixel_area_come_out_zero() {
    let mut input = grid(3, 2);
    input.extend_from_slice(&[9, 9, 9]);
    let out = rotate_rgba(input, 3, 2, Transform::Rot90);
    assert_eq!(out.len(), 27);
    assert_eq!(&out[24..], &[0, 0, 0]);
}

#[test]
fn convert_xrgb_little_endian_swizzle() {
    let bytes = [
        10, 20, 30, 255, 0, 0, 0, 0, 0, 0, 0, 0, // row 0
        11, 21, 31, 255, 0, 0, 0, 0, 0, 0, 0, 0, // row 1
    ];
    let out = convert_to_rgba(&bytes, 1, 1, 2, 12, false);
    assert_eq!(&out[..8], &[30, 20, 10, 255, 31, 21, 11, 255]);
}

#[test]
fn convert_y_invert() {
    let bytes = [10, 20, 30, 255, 0, 0, 0, 0, 11, 21, 31, 255, 0, 0, 0, 0];
    let out = convert_to_rgba(&bytes, 1, 1, 2, 8, true);
    assert_eq!(&out[..4], &[31, 21, 11, 255]);
    assert_eq!(&out[4..8], &[30, 20, 10, 255]);
}

#[test]
fn convert_rgb_order_formats_and_forced_alpha() {
    // any format other than Argb8888 (0) / Xrgb8888 (1) is read as R,G,B,X
    let bytes = [10, 20, 30, 7];
    assert_eq!(convert_to_rgba(&bytes, 0x34324258, 1, 1, 4, false), vec![10, 20, 30, 255]);
    assert_eq!(convert_to_rgba(&bytes, 0, 1, 1, 4, false), vec![30, 20, 10, 255]);
}

/// 4×3 gradient: pixel (x, y) = (x, y, 0, 255).
fn gradient_4x3() -> (u32, u32, Vec<u8>) {
    let (w, h) = (4u32, 3u32);
    let mut rgba = vec![0u8; (w * h * 4) as usize];
    for y in 0..h {
        for x in 0..w {
            let i = ((y * w + x) * 4) as usize;
            rgba[i] = x as u8;
            rgba[i + 1] = y as u8;
            rgba[i + 2] = 0;
            rgba[i + 3] = 255;
        }
    }
    (w, h, rgba)
}

#[test]
fn crop_scale1_takes_exact_pixels() {
    // logical (1,1) 2×1 at scale 1 → physical x 1..3, y 1..2
    let (w, h, rgba) = gradient_4x3();
    let (cw, ch, out) = crop_rect(&rgba, w, h, 1, 1, 3, 2).unwrap();
    assert_eq!((cw, ch), (2, 1));
    assert_eq!(&out[..4], &[1, 1, 0, 255]);
    assert_eq!(&out[4..8], &[2, 1, 0, 255]);
}

#[test]
fn crop_scale2_logical_to_physical() {
    // logical (0.5,0.5) 1×1 at scale 2 → physical x 1..3, y 1..3
    let (w, h, rgba) = gradient_4x3();
    let (cw, ch, out) = crop_rect(&rgba, w, h, 1, 1, 3, 3).unwrap();
    assert_eq!((cw, ch), (2, 2));
    assert_eq!(&out[..4], &[1, 1, 0, 255]);
    assert_eq!(&out[4..8], &[2, 1, 0, 255]);
    assert_eq!(&out[8..12], &[1, 2, 0, 255]);
}

#[test]
fn crop_clamped_overhang() {
    // logical (2,1) 99×99 clamps to physical x 2..4, y 1..3
    let (w, h, rgba) = gradient_4x3();
    let (cw, ch, _) = crop_rect(&rgba, w, h, 2, 1, 4, 3).unwrap();
    assert_eq!((cw, ch), (2, 2));
}

#[test]
fn crop_empty_selection_is_none() {
    let (w, h, rgba) = gradient_4x3();
    assert!(crop_rect(&rgba, w, h, 4, 0, 4, 3).is_none());
    assert!(crop_rect(&rgba, w, h, 0, 3, 4, 3).is_none());
}

#[test]
fn rgb_drops_alpha_and_keeps_a_short_tail() {
    assert_eq!(rgba_to_rgb(&[1, 2, 3, 4, 5, 6, 7, 8]), vec![1, 2, 3, 5, 6, 7]);
    assert_eq!(rgba_to_rgb(&[1, 2, 3, 4, 5, 6, 7]), vec![1, 2, 3, 5, 6, 7]);
    assert!(rgba_to_rgb(&[]).is_empty());
}

#[test]
fn bgrx_pixel_swizzles_into_opaque_rgba() {
    let mut chunk = [0u8; 4];
    dst_row_left_right(&[10, 20, 30, 0], &mut chunk);
    assert_eq!(chunk, [30, 20, 10, 255]);
}
