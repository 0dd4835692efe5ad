use snib_capture::develop::{conclude, develop, is_developable};
use snib_capture::picture::Transform;
use snib_capture::session::{BufferPlan, Capture, Negotiation, SessionEvent};

fn plan(width: u32, height: u32, format: u32) -> BufferPlan {
    let mut cap = Capture::default();
    cap.session_event(SessionEvent::BufferSize { width, height });
    cap.session_event(SessionEvent::ShmFormat { format });
    cap.session_event(SessionEvent::Done);
    match cap.negotiate(true) {
        Negotiation::Buffer(plan) => plan,
        other => panic!("{:?}", other),
    }
}

#[test]
fn a_frame_that_fits_is_reproduced() {
    let raw: Vec<u8> = (1..=24).collect();
    let plan = plan(3, 2, 0);
    assert!(is_developable(&raw, &plan, None, 2, true));
    let shot = develop(&raw, &plan, None, 2, true).unwrap();
    assert_eq!((shot.width, shot.height), (3, 2));
    assert_eq!(
        shot.rgba,
        vec![3, 2, 1, 4, 7, 6, 5, 8, 11, 10, 9, 12, 15, 14, 13, 16, 19, 18, 17, 20, 23, 22, 21, 24]
    );
}

#[test]
fn a_turned_frame_is_set_upright() {
    let raw: Vec<u8> = vec![1, 2, 3, 4, 5, 6, 7, 8];
    let plan = plan(2, 1, 1);
    let shot = develop(&raw, &plan, Some(Transform::Rotated90), 9, true).unwrap();
    assert_eq!((shot.width, shot.height), (1, 2));
    assert_eq!(shot.rgba, vec![3, 2, 1, 255, 7, 6, 5, 255]);
    let back = develop(&raw, &plan, Some(Transform::Rotated270), 9, true).unwrap();
    assert_eq!(back.rgba, vec![7, 6, 5, 255, 3, 2, 1, 255]);
    let flipped = develop(&raw, &plan, Some(Transform::Flipped), 9, true).unwrap();
    assert_eq!((flipped.width, flipped.height), (2, 1));
    assert_eq!(flipped.rgba, vec![7, 6, 5, 255, 3, 2, 1, 255]);
}

#[test]
fn a_large_frame_is_averaged() {
    // Two by two pixels, brought down to one.
    let raw: Vec<u8> = vec![10, 0, 100, 0, 20, 0, 200, 0, 30, 4, 0, 0, 41, 0, 0, 0];
    let plan = plan(2, 2, 1);
    let shot = develop(&raw, &plan, None, 1, true).unwrap();
    assert_eq!((shot.width, shot.height), (1, 1));
    assert_eq!(shot.rgba, vec![75, 1, 25, 255]);
}

#[test]
fn the_bound_applies_to_the_upright_frame() {
    let raw: Vec<u8> = vec![7; 4 * 8 * 4];
    let plan = plan(8, 4, 1);
    let shot = develop(&raw, &plan, Some(Transform::Rotated90), 4, true).unwrap();
    assert_eq!((shot.width, shot.height), (2, 4));
    assert_eq!(shot.rgba.len(), 32);
    let wide = develop(&raw, &plan, None, 4, false).unwrap();
    assert_eq!((wide.width, wide.height), (4, 2));
}

#[test]
fn a_thumbnail_is_never_empty() {
    let raw: Vec<u8> = vec![50; 4 * 100];
    let plan = plan(1, 100, 0);
    let shot = develop(&raw, &plan, None, 10, true).unwrap();
    assert_eq!((shot.width, shot.height), (1, 10));
    let least = develop(&raw, &plan, None, 0, false).unwrap();
    assert_eq!((least.width, least.height), (1, 1));
    assert_eq!(least.rgba, vec![50; 4]);
}

#[test]
fn too_few_bytes_make_no_picture() {
    let plan = plan(2, 2, 1);
    assert!(develop(&[0; 15], &plan, None, 9, true).is_none());
    assert!(develop(&[0; 16], &plan, None, 9, true).is_some());
}

#[test]
fn surplus_bytes_are_left_out_of_the_thumbnail() {
    let plan = plan(1, 1, 0);
    let shot = develop(&[1, 2, 3, 4, 9, 9, 9, 9], &plan, None, 9, true).unwrap();
    assert_eq!(shot.rgba, vec![3, 2, 1, 4]);
}

#[test]
fn what_can_be_developed_is_known() {
    let white = |width: usize, height: usize| vec![255; 4 * width * height];
    assert!(!is_developable(&[], &plan(0, 5, 1), None, 9, true));
    assert!(!is_developable(&[], &plan(5, 0, 1), None, 9, true));
    let large = white(7680, 4320);
    assert!(is_developable(&large, &plan(7680, 4320, 1), None, 200, true));
    assert!(!is_developable(&large, &plan(7680, 4320, 1), None, 0, true));
    let full = white(4101, 4100);
    assert!(is_developable(&full, &plan(4100, 4100, 1), None, 0, true));
    assert!(!is_developable(&full, &plan(4101, 4100, 1), Some(Transform::Flipped90), 0, true));
    let vast = white(8201, 8201);
    assert!(is_developable(&vast, &plan(8200, 8200, 1), None, 2, true));
    assert!(!is_developable(&vast, &plan(8201, 8201, 1), None, 2, true));
}

#[test]
fn too_few_bytes_are_no_hindrance() {
    let plan = plan(7680, 4320, 1);
    assert!(is_developable(&[255; 16], &plan, None, 0, true));
    assert!(develop(&[255; 16], &plan, None, 0, true).is_none());
}

#[test]
fn a_dim_frame_can_be_larger() {
    let dim = vec![100; 4 * 5000 * 5000];
    // With its own alpha the frame is dim throughout; without, alpha is full.
    let plan_with_alpha = plan(5000, 5000, 0);
    assert!(is_developable(&dim, &plan_with_alpha, Some(Transform::Rotated90), 0, true));
    let shot = develop(&dim, &plan_with_alpha, Some(Transform::Rotated90), 0, true).unwrap();
    assert_eq!((shot.width, shot.height), (1, 1));
    assert_eq!(shot.rgba, vec![100; 4]);
    assert!(!is_developable(&dim, &plan(5000, 5000, 1), None, 0, true));
    let mut lit = dim;
    lit[4 * 5000 * 5000 - 1] = 200;
    assert!(!is_developable(&lit, &plan_with_alpha, None, 0, true));
}

#[test]
fn only_written_frames_are_developed() {
    let plan = plan(1, 1, 0);
    let shot = conclude(&plan, true, &[1, 2, 3, 4], None, 9, true).unwrap();
    assert_eq!((shot.width, shot.height), (1, 1));
    assert_eq!(shot.rgba, vec![3, 2, 1, 4]);
    assert!(conclude(&plan, false, &[1, 2, 3, 4], None, 9, true).is_none());
    assert!(conclude(&plan, true, &[1, 2, 3], None, 9, true).is_none());
}

#[test]
fn a_white_frame_at_the_limit_stays_white() {
    let plan = plan(4100, 4100, 1);
    let shot = develop(&vec![255; 4 * 4100 * 4100], &plan, None, 0, true).unwrap();
    assert_eq!((shot.width, shot.height), (1, 1));
    assert_eq!(shot.rgba, vec![255; 4]);
}
