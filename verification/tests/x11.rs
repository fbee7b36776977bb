use image::Rgba;
use printcher::capture::x11::to_rgba_image;

#[test]
fn lsb_first_reads_bgrx_bytes_as_rgb() {
    // Um pixel 2x1: (B,G,R,X) = (10,20,30,0) e (40,50,60,0).
    let data = [10u8, 20, 30, 0, 40, 50, 60, 0];
    let img = to_rgba_image(&data, 2, 1, false);
    assert_eq!(Rgba(img.get_pixel(0, 0)), Rgba([30, 20, 10, 255]));
    assert_eq!(Rgba(img.get_pixel(1, 0)), Rgba([60, 50, 40, 255]));
}

#[test]
fn msb_first_reads_xrgb_bytes_as_rgb() {
    // Um pixel 2x1: (X,R,G,B) = (0,30,20,10) e (0,60,50,40).
    let data = [0u8, 30, 20, 10, 0, 60, 50, 40];
    let img = to_rgba_image(&data, 2, 1, true);
    assert_eq!(Rgba(img.get_pixel(0, 0)), Rgba([30, 20, 10, 255]));
    assert_eq!(Rgba(img.get_pixel(1, 0)), Rgba([60, 50, 40, 255]));
}

#[test]
fn alpha_is_always_opaque() {
    let data = [1u8, 2, 3, 4];
    let img = to_rgba_image(&data, 1, 1, false);
    assert_eq!(img.get_pixel(0, 0)[3], 255);
}

#[test]
fn maps_rows_and_columns_correctly() {
    // 2x2: garante que o índice linear vira (x, y) certo.
    let data: Vec<u8> = (0..16).collect(); // 4 pixels * 4 bytes
    let img = to_rgba_image(&data, 2, 2, false);
    assert_eq!(img.width(), 2);
    assert_eq!(img.height(), 2);
    // pixel (1,1) é o 4º da lista (índice 3), bytes 12..16 -> B=12,G=13,R=14
    assert_eq!(Rgba(img.get_pixel(1, 1)), Rgba([14, 13, 12, 255]));
}

#[test]
fn ignores_trailing_bytes_beyond_declared_dimensions() {
    let data = vec![0u8; 4 * 10];
    let img = to_rgba_image(&data, 2, 2, false);
    assert_eq!(img.width(), 2);
    assert_eq!(img.height(), 2);
}

#[test]
fn pixels_missing_from_a_short_buffer_stay_transparent() {
    let data = [1u8, 2, 3, 4, 5, 6];
    let img = to_rgba_image(&data, 2, 1, false);
    assert_eq!(img.get_pixel(0, 0), [3, 2, 1, 255]);
    assert_eq!(img.get_pixel(1, 0), [0, 0, 0, 0]);
    assert_eq!(img.into_raw(), vec![3, 2, 1, 255, 0, 0, 0, 0]);
}
