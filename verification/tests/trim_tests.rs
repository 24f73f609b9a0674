use pixelator::{resize_image, PixelBuffer};

fn numbered(width: u32, height: u32) -> PixelBuffer {
    let mut buffer = PixelBuffer::new(width, height).unwrap();
    for y in 0..height {
        for x in 0..width {
            buffer.put_pixel(x, y, (x as u8, y as u8, (10 * y + x) as u8));
        }
    }
    buffer
}

#[test]
fn trimmed_dimensions_are_multiples() {
    let sizes = [(0u32, 0u32), (1, 1), (3, 3), (5, 4), (7, 9), (10, 10), (26, 51), (100, 100)];
    let ratios = [1u32, 2, 3, 4, 7, 25, 30, 200];
    for &(width, height) in sizes.iter() {
        for &ratio in ratios.iter() {
            let out = resize_image(numbered(width, height), ratio);
            assert_eq!(out.width() % ratio, 0);
            assert_eq!(out.height() % ratio, 0);
            assert_eq!(out.width(), width - width % ratio);
            assert_eq!(out.height(), height - height % ratio);
            assert_eq!(out.as_raw().len(), (out.width() * out.height() * 3) as usize);
        }
    }
}

#[test]
fn exact_multiples_are_returned_unchanged() {
    let image = numbered(6, 4);
    let out = resize_image(image.clone(), 2);
    assert_eq!(out, image);

    let image = numbered(50, 75);
    let out = resize_image(image.clone(), 25);
    assert_eq!(out, image);

    let image = numbered(5, 9);
    let out = resize_image(image.clone(), 1);
    assert_eq!(out, image);

    let empty = PixelBuffer::new(0, 0).unwrap();
    assert_eq!(resize_image(empty.clone(), 25), empty);
}

#[test]
fn three_by_three_keeps_its_corners() {
    let out = resize_image(numbered(3, 3), 2);
    assert_eq!(out.dimensions(), (2, 2));
    assert_eq!(out.get_pixel(0, 0), (0, 0, 0));
    assert_eq!(out.get_pixel(1, 0), (2, 0, 2));
    assert_eq!(out.get_pixel(0, 1), (0, 2, 20));
    assert_eq!(out.get_pixel(1, 1), (2, 2, 22));
}

#[test]
fn narrowing_resamples_rather_than_crops() {
    // Five columns become four: the nearest source columns are 0, 1, 3, 4.
    let out = resize_image(numbered(5, 4), 2);
    assert_eq!(out.dimensions(), (4, 4));
    for y in 0..4u32 {
        assert_eq!(out.get_pixel(0, y), (0, y as u8, (10 * y) as u8));
        assert_eq!(out.get_pixel(1, y), (1, y as u8, (10 * y + 1) as u8));
        assert_eq!(out.get_pixel(2, y), (3, y as u8, (10 * y + 3) as u8));
        assert_eq!(out.get_pixel(3, y), (4, y as u8, (10 * y + 4) as u8));
    }
}

#[test]
fn only_the_height_needs_trimming() {
    let out = resize_image(numbered(4, 5), 2);
    assert_eq!(out.dimensions(), (4, 4));
    for x in 0..4u32 {
        assert_eq!(out.get_pixel(x, 0), (x as u8, 0, x as u8));
        assert_eq!(out.get_pixel(x, 1), (x as u8, 1, (10 + x) as u8));
        assert_eq!(out.get_pixel(x, 2), (x as u8, 3, (30 + x) as u8));
        assert_eq!(out.get_pixel(x, 3), (x as u8, 4, (40 + x) as u8));
    }
}

#[test]
fn block_larger_than_image_trims_to_nothing() {
    let out = resize_image(numbered(3, 4), 5);
    assert_eq!(out.dimensions(), (0, 0));
    assert!(out.as_raw().is_empty());
}

#[test]
fn buffer_without_rows_is_trimmed_in_width() {
    let out = resize_image(PixelBuffer::new(7, 0).unwrap(), 2);
    assert_eq!(out.dimensions(), (6, 0));
    assert!(out.as_raw().is_empty());

    let out = resize_image(PixelBuffer::new(0, 7).unwrap(), 2);
    assert_eq!(out.dimensions(), (0, 6));
    assert!(out.as_raw().is_empty());
}

#[test]
fn block_larger_than_one_dimension() {
    let out = resize_image(numbered(10, 3), 5);
    assert_eq!(out.dimensions(), (10, 0));
    assert!(out.as_raw().is_empty());

    let out = resize_image(numbered(3, 10), 5);
    assert_eq!(out.dimensions(), (0, 10));
    assert!(out.as_raw().is_empty());
}
