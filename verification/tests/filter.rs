use shotori::annotation::ShapeKind;
use shotori::filter::{blur, mosaic, rasterize_region};

// The filter mark used below: bounds (2,2) 8×8, width 4, at
// origin (0,0) and scale 1 → region 2..10 × 2..10, strength 4.

#[test]
fn mosaic_averages_each_tile_and_preserves_outside_and_gaps() {
    let mut data = [20, 40, 60, 255].repeat(12 * 12);
    for y in 2..6 {
        for x in 2..6 {
            data[(y * 12 + x) * 4] = if x < 4 { 0 } else { 100 };
        }
    }
    data[(3 * 12 + 3) * 4..(3 * 12 + 3) * 4 + 4].fill(0);
    let before = data.clone();
    rasterize_region(ShapeKind::Mosaic, &mut data, 12, 12, 2, 2, 10, 10, 4);
    assert_eq!(&data[(2 * 12 + 2) * 4..(2 * 12 + 2) * 4 + 4], &[53, 40, 60, 255]);
    assert_eq!(&data[(3 * 12 + 3) * 4..(3 * 12 + 3) * 4 + 4], &[0; 4]);
    for y in 0..12 {
        for x in 0..12 {
            if !(2..10).contains(&x) || !(2..10).contains(&y) {
                let at = (y * 12 + x) * 4;
                assert_eq!(&data[at..at + 4], &before[at..at + 4]);
            }
        }
    }
}

#[test]
fn blur_matches_naive_alpha_weighted_reference() {
    let before: Vec<u8> = (0..144)
        .flat_map(|i: u32| [(i * 11 % 256) as u8, 70, 120, if i % 7 == 0 { 0 } else { 255 }])
        .collect();
    let mut actual = before.clone();
    rasterize_region(ShapeKind::Blur, &mut actual, 12, 12, 2, 2, 10, 10, 4);
    for y in 2_usize..10 {
        for x in 2_usize..10 {
            let at = (y * 12 + x) * 4;
            if before[at + 3] == 0 {
                assert_eq!(&actual[at..at + 4], &before[at..at + 4]);
                continue;
            }
            let mut total = [0_u64; 4];
            for row in y.saturating_sub(2).max(2)..=(y + 2).min(9) {
                for col in x.saturating_sub(2).max(2)..=(x + 2).min(9) {
                    let p = &before[(row * 12 + col) * 4..][..4];
                    for c in 0..3 {
                        total[c] += p[c] as u64 * p[3] as u64;
                    }
                    total[3] += p[3] as u64;
                }
            }
            for c in 0..3 {
                assert_eq!(actual[at + c], ((total[c] + total[3] / 2) / total[3]) as u8);
            }
        }
    }
}

#[test]
fn filters_handle_reverse_origin_fractional_scale_and_tiny_clipped_regions() {
    // The mark at (-4,-4) 8×8 seen from origin (-2,-2): at scales 1, 1.25,
    // 1.73 and 2 the clamped regions are 0..6, 0..8, 0..10 and 0..12 with
    // strengths 4, 5, 7 and 8; a 0.1-pixel mark clamps to an empty region.
    for kind in [ShapeKind::Mosaic, ShapeKind::Blur] {
        for (edge, strength) in [(6usize, 4usize), (8, 5), (10, 7), (12, 8)] {
            let mut pixels = [20, 40, 60, 255].repeat(12 * 12);
            rasterize_region(kind, &mut pixels, 12, 12, 0, 0, edge, edge, strength);
            assert!(pixels.chunks(4).all(|p| p == [20, 40, 60, 255]));
            rasterize_region(kind, &mut pixels, 12, 12, 0, 0, 0, 0, strength);
            assert!(pixels.chunks(4).all(|p| p == [20, 40, 60, 255]));
        }
    }
}

#[test]
fn mosaic_tiles_clip_at_the_region_edge() {
    // 5×1 region with 2-wide tiles: [a a][b b][c]
    let mut data = vec![];
    for v in [10u8, 30, 50, 70, 90] {
        data.extend_from_slice(&[v, 0, 0, 255]);
    }
    mosaic(&mut data, 5, 0, 0, 5, 1, 2);
    let reds: Vec<u8> = data.chunks(4).map(|p| p[0]).collect();
    assert_eq!(reds, vec![20, 20, 60, 60, 90]);
}

#[test]
fn mosaic_weights_by_alpha_and_rounds_half_up() {
    // two pixels: red 0 at alpha 255, red 255 at alpha 85 → (0*255 + 255*85 + 170) / 340 = 64
    let mut data = vec![0, 0, 0, 255, 255, 0, 0, 85];
    mosaic(&mut data, 2, 0, 0, 2, 1, 2);
    assert_eq!(data, vec![64, 0, 0, 255, 64, 0, 0, 85]);
}

#[test]
fn blur_radius_one_on_a_row() {
    let mut data = vec![];
    for v in [0u8, 30, 60, 90] {
        data.extend_from_slice(&[v, v, v, 255]);
    }
    blur(&mut data, 4, 0, 0, 4, 1, 1);
    let reds: Vec<u8> = data.chunks(4).map(|p| p[0]).collect();
    // windows: [0,30] → 15, [0,30,60] → 30, [30,60,90] → 60, [60,90] → 75
    assert_eq!(reds, vec![15, 30, 60, 75]);
}

#[test]
fn fully_transparent_region_is_untouched() {
    let mut data = [9, 9, 9, 0].repeat(16);
    let before = data.clone();
    rasterize_region(ShapeKind::Mosaic, &mut data, 4, 4, 0, 0, 4, 4, 2);
    rasterize_region(ShapeKind::Blur, &mut data, 4, 4, 0, 0, 4, 4, 2);
    assert_eq!(data, before);
}
