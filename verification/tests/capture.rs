use shotori::capture::{FrameState, all_frames_done, frame_format, frame_pixels, rotated, transform_from_wire};
use shotori::pixels::Transform;

#[test]
fn wire_transforms_map_onto_the_enum() {
    let all = [
        Transform::Normal,
        Transform::Rot90,
        Transform::Rot180,
        Transform::Rot270,
        Transform::Flipped,
        Transform::Flipped90,
        Transform::Flipped180,
        Transform::Flipped270,
    ];
    for (v, t) in all.iter().enumerate() {
        assert_eq!(transform_from_wire(v as u32), *t);
    }
    assert_eq!(transform_from_wire(99), Transform::Normal);
    assert!(!rotated(Transform::Normal));
    assert!(rotated(Transform::Flipped));
    assert_eq!(frame_format(None), 1);
    assert_eq!(frame_format(Some(0)), 0);
}

#[test]
fn frames_finish_when_ready_or_failed() {
    let mut a = FrameState::new();
    let mut b = FrameState::new();
    assert!(!a.is_done());
    a.on_buffer(1, 2, 3, 8);
    a.on_flags(true);
    a.on_ready();
    b.on_failed();
    assert!(b.failed());
    assert!(all_frames_done(&vec![Some(a), Some(b)]));
    assert!(!all_frames_done(&vec![Some(FrameState::new())]));
    assert!(!all_frames_done(&vec![None]));
    assert!(all_frames_done(&vec![]));
}

#[test]
fn frame_info_is_handed_out_once_with_the_flag() {
    let mut f = FrameState::new();
    assert!(f.take_frame_info().is_none());
    f.on_buffer(0, 4, 2, 16);
    f.on_flags(true);
    assert_eq!(f.take_frame_info(), Some((0, 4, 2, 16, true)));
    assert!(f.take_frame_info().is_none());
}

#[test]
fn frame_pixels_convert_then_rotate() {
    // 2×1 Xrgb frame: [B,G,R,X] pairs; rotated by 90 it becomes 1×2
    let bytes = [1, 2, 3, 0, 4, 5, 6, 0];
    let (w, h, rgba) = frame_pixels(&bytes, 1, 2, 1, 8, false, Transform::Rot90);
    assert_eq!((w, h), (1, 2));
    assert_eq!(rgba, vec![3, 2, 1, 255, 6, 5, 4, 255]);
}
