use snib_capture::picture::{apply_transform, Picture, Transform};

// A picture with the given number in every channel of each pixel.
fn picture(width: u32, height: u32, numbers: &[u8]) -> Picture {
    let mut rgba: Vec<u8> = Vec::new();
    for n in numbers {
        for c in 0..4u8 {
            rgba.push(4 * n + c);
        }
    }
    Picture { width, height, rgba }
}

fn check(t: Transform, width: u32, height: u32, numbers: &[u8]) {
    let turned = apply_transform(picture(3, 2, &[1, 2, 3, 4, 5, 6]), t);
    let expected = picture(width, height, numbers);
    assert_eq!((turned.width, turned.height), (width, height));
    assert_eq!(turned.rgba, expected.rgba);
}

#[test]
fn plain_pictures_stay() {
    check(Transform::Normal, 3, 2, &[1, 2, 3, 4, 5, 6]);
    check(Transform::Other, 3, 2, &[1, 2, 3, 4, 5, 6]);
}

#[test]
fn quarter_turns_go_clockwise() {
    check(Transform::Rotated90, 2, 3, &[4, 1, 5, 2, 6, 3]);
    check(Transform::Flipped90, 2, 3, &[4, 1, 5, 2, 6, 3]);
}

#[test]
fn half_turns_reverse() {
    check(Transform::Rotated180, 3, 2, &[6, 5, 4, 3, 2, 1]);
    check(Transform::Flipped180, 3, 2, &[6, 5, 4, 3, 2, 1]);
}

#[test]
fn three_quarter_turns_go_clockwise() {
    check(Transform::Rotated270, 2, 3, &[3, 6, 2, 5, 1, 4]);
    check(Transform::Flipped270, 2, 3, &[3, 6, 2, 5, 1, 4]);
}

#[test]
fn flips_mirror() {
    check(Transform::Flipped, 3, 2, &[3, 2, 1, 6, 5, 4]);
}

#[test]
fn turns_add_up() {
    let numbers = [1, 2, 3, 4, 5, 6];
    let start = picture(3, 2, &numbers);
    let twice = apply_transform(
        apply_transform(picture(3, 2, &numbers), Transform::Rotated90),
        Transform::Rotated90,
    );
    let half = apply_transform(picture(3, 2, &numbers), Transform::Rotated180);
    assert_eq!(twice.rgba, half.rgba);
    let thrice = apply_transform(twice, Transform::Rotated90);
    let three_quarters = apply_transform(picture(3, 2, &numbers), Transform::Rotated270);
    assert_eq!(thrice.rgba, three_quarters.rgba);
    let round = apply_transform(thrice, Transform::Rotated90);
    assert_eq!((round.width, round.height), (3, 2));
    assert_eq!(round.rgba, start.rgba);
    assert_eq!(apply_transform(half, Transform::Rotated180).rgba, start.rgba);
    let mirrored = apply_transform(picture(3, 2, &numbers), Transform::Flipped);
    assert_eq!(apply_transform(mirrored, Transform::Flipped).rgba, start.rgba);
}

#[test]
fn surplus_bytes_are_dropped_by_a_turn() {
    let mut long = picture(1, 2, &[1, 2]);
    long.rgba.push(77);
    let turned = apply_transform(long, Transform::Rotated180);
    assert_eq!(turned.rgba, picture(1, 2, &[2, 1]).rgba);
}

#[test]
fn turning_back_restores_all_but_surplus_bytes() {
    let exact = picture(3, 2, &[1, 2, 3, 4, 5, 6]);
    for (there, back) in [
        (Transform::Rotated90, Transform::Rotated270),
        (Transform::Rotated270, Transform::Rotated90),
        (Transform::Rotated180, Transform::Rotated180),
        (Transform::Flipped, Transform::Flipped),
    ] {
        let mut long = picture(3, 2, &[1, 2, 3, 4, 5, 6]);
        long.rgba.extend([7, 7, 7]);
        let restored = apply_transform(apply_transform(long, there), back);
        assert_eq!((restored.width, restored.height), (3, 2));
        assert_eq!(restored.rgba, exact.rgba);
    }
}

#[test]
fn empty_pictures_are_turned_too() {
    let turned = apply_transform(picture(0, 5, &[]), Transform::Rotated90);
    assert_eq!((turned.width, turned.height), (5, 0));
    assert!(turned.rgba.is_empty());
}
