use renderkit::framebuffer::{pixel_coords, to_bgra};

#[test]
fn packs_opaque_argb() {
    assert_eq!(to_bgra(1, 2, 3), 0xff01_0203);
    assert_eq!(to_bgra(255, 128, 0), 0xffff_8000);
}

#[test]
fn black_is_opaque() {
    assert_eq!(to_bgra(0, 0, 0), 0xff00_0000);
    assert_eq!(to_bgra(255, 255, 255), 0xffff_ffff);
}

#[test]
fn first_position_is_top_left() {
    assert_eq!(pixel_coords(4, 3, 0), (2, 0));
}

#[test]
fn positions_run_along_rows() {
    assert_eq!(pixel_coords(4, 3, 5), (1, 1));
    assert_eq!(pixel_coords(4, 3, 11), (0, 3));
}
