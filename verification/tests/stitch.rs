use shotori::stitch::{PlacedCrop, replace_pixels, stitch_crops};

fn solid(w: u32, h: u32, px: [u8; 4]) -> Vec<u8> {
    px.repeat((w * h) as usize)
}

#[test]
fn paste_is_clipped_to_the_canvas() {
    let mut canvas = vec![0u8; 3 * 2 * 4];
    let top = solid(2, 2, [9, 8, 7, 6]);
    replace_pixels(&mut canvas, 3, 2, &top, 2, 2, 2, 1);
    // only canvas pixel (2, 1) lies under the pasted image
    for (i, px) in canvas.chunks(4).enumerate() {
        if i == 5 {
            assert_eq!(px, &[9, 8, 7, 6]);
        } else {
            assert_eq!(px, &[0, 0, 0, 0]);
        }
    }
}

#[test]
fn paste_off_the_canvas_changes_nothing() {
    let mut canvas = vec![1u8; 2 * 2 * 4];
    replace_pixels(&mut canvas, 2, 2, &solid(1, 1, [5, 5, 5, 5]), 1, 1, 2, 0);
    assert_eq!(canvas, vec![1u8; 16]);
}

#[test]
fn crops_land_side_by_side_and_gaps_stay_transparent() {
    // two 1×1 crops on a 3×1 canvas, at columns 0 and 2; column 1 is a gap
    let crops = vec![
        PlacedCrop { x: 0, y: 0, right: 1, bottom: 1, cw: 1, ch: 1, rgba: vec![10, 20, 30, 255] },
        PlacedCrop { x: 2, y: 0, right: 3, bottom: 1, cw: 1, ch: 1, rgba: vec![40, 50, 60, 255] },
    ];
    let out = stitch_crops(3, 1, &crops).unwrap();
    assert_eq!(out, vec![10, 20, 30, 255, 0, 0, 0, 0, 40, 50, 60, 255]);
}

#[test]
fn a_denser_canvas_scales_crops_up() {
    let crops = vec![PlacedCrop { x: 0, y: 0, right: 2, bottom: 2, cw: 1, ch: 1, rgba: vec![7, 7, 7, 255] }];
    let out = stitch_crops(2, 2, &crops).unwrap();
    assert_eq!(out, [7, 7, 7, 255].repeat(4));
}

#[test]
fn a_short_crop_buffer_fails_the_stitch() {
    let crops = vec![PlacedCrop { x: 0, y: 0, right: 1, bottom: 1, cw: 2, ch: 2, rgba: vec![0; 4] }];
    assert!(stitch_crops(1, 1, &crops).is_none());
}
