use raytrace_rs::to_raster;

#[test]
fn raster_holds_the_pixels_row_after_row() {
    let mut pixels = Vec::new();
    for y in 0..2u8 {
        for x in 0..3u8 {
            pixels.push((10 * y + x, 100 + x, 200 + y));
        }
    }
    let raster = to_raster(3, 2, &pixels);
    assert_eq!(raster.image.dimensions(), (3, 2));
    for y in 0..2u32 {
        for x in 0..3u32 {
            let expected = pixels[(y * 3 + x) as usize];
            assert_eq!(raster.image.get_pixel(x, y).0, [expected.0, expected.1, expected.2]);
        }
    }
    assert_eq!(
        raster.image.as_raw(),
        &vec![0, 100, 200, 1, 101, 200, 2, 102, 200, 10, 100, 201, 11, 101, 201, 12, 102, 201]
    );
}

#[test]
fn raster_of_one_column_and_of_nothing() {
    let pixels = vec![(1, 2, 3), (4, 5, 6), (7, 8, 9)];
    let raster = to_raster(1, 3, &pixels);
    assert_eq!(raster.image.dimensions(), (1, 3));
    assert_eq!(raster.image.get_pixel(0, 2).0, [7, 8, 9]);
    let empty = to_raster(0, 5, &Vec::new());
    assert_eq!(empty.image.dimensions(), (0, 5));
    assert_eq!(empty.image.as_raw().len(), 0);
    let empty = to_raster(4, 0, &Vec::new());
    assert_eq!(empty.image.dimensions(), (4, 0));
}
