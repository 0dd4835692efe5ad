use snib_capture::pixels::bgra_to_rgba;

#[test]
fn blue_and_red_change_places() {
    assert_eq!(bgra_to_rgba(&[1, 2, 3, 4, 5, 6, 7, 8], false), vec![3, 2, 1, 4, 7, 6, 5, 8]);
}

#[test]
fn opaque_pixels_get_full_alpha() {
    assert_eq!(bgra_to_rgba(&[1, 2, 3, 4, 5, 6, 7, 8], true), vec![3, 2, 1, 255, 7, 6, 5, 255]);
    assert_eq!(bgra_to_rgba(&[1, 2, 3, 99], true), bgra_to_rgba(&[1, 2, 3, 4], true));
}

#[test]
fn bytes_behind_the_last_pixel_are_cleared() {
    assert_eq!(bgra_to_rgba(&[1, 2, 3, 4, 5, 6, 7], false), vec![3, 2, 1, 4, 0, 0, 0]);
    assert_eq!(bgra_to_rgba(&[9, 9], true), vec![0, 0]);
    assert_eq!(bgra_to_rgba(&[], true), Vec::<u8>::new());
}

#[test]
fn reordering_twice_restores() {
    let src: Vec<u8> = (0..64).collect();
    assert_eq!(bgra_to_rgba(&bgra_to_rgba(&src, false), false), src);
}
