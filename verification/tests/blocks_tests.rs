use pixelator::{get_rbg_averages, PixelBuffer};

fn gradient(width: u32, height: u32) -> PixelBuffer {
    let mut buffer = PixelBuffer::new(width, height).unwrap();
    for y in 0..height {
        for x in 0..width {
            let r = (x * 13 + y * 7) % 256;
            let g = (x * 3 + y * 31) % 256;
            let b = (x * y + 5) % 256;
            buffer.put_pixel(x, y, (r as u8, g as u8, b as u8));
        }
    }
    buffer
}

#[test]
fn each_block_gets_its_own_mean() {
    let mut image = PixelBuffer::new(4, 2).unwrap();
    let values = [[10u8, 20, 100, 101], [30, 41, 102, 104]];
    for y in 0..2u32 {
        for x in 0..4u32 {
            let v = values[y as usize][x as usize];
            image.put_pixel(x, y, (v, v / 2, 255 - v));
        }
    }
    let out = get_rbg_averages(&image, 2);
    assert_eq!(out.dimensions(), (4, 2));
    // left block: (10+20+30+41)/4 = 25, (5+10+15+20)/4 = 12, (245+235+225+214)/4 = 229
    // right block: (100+101+102+104)/4 = 101, (50+50+51+52)/4 = 50, (155+154+153+151)/4 = 153
    for y in 0..2 {
        for x in 0..4 {
            let expected = if x < 2 { (25, 12, 229) } else { (101, 50, 153) };
            assert_eq!(out.get_pixel(x, y), expected);
        }
    }
}

#[test]
fn input_is_left_alone() {
    let image = gradient(6, 6);
    let copy = image.clone();
    let _ = get_rbg_averages(&image, 3);
    assert_eq!(image, copy);
}

#[test]
fn blocks_are_flat() {
    let ratio = 4;
    let out = get_rbg_averages(&gradient(12, 8), ratio);
    for y in 0..8 {
        for x in 0..12 {
            let corner = out.get_pixel(x - x % ratio, y - y % ratio);
            assert_eq!(out.get_pixel(x, y), corner);
        }
    }
}

#[test]
fn pixelating_twice_changes_nothing() {
    let cases = [(12u32, 8u32, 4u32), (9, 9, 3), (10, 7, 3), (5, 5, 1), (4, 4, 9)];
    for &(width, height, ratio) in cases.iter() {
        let once = get_rbg_averages(&gradient(width, height), ratio);
        let twice = get_rbg_averages(&once, ratio);
        assert_eq!(twice, once);
    }
}

#[test]
fn ratio_one_copies_the_image() {
    let image = gradient(5, 3);
    assert_eq!(get_rbg_averages(&image, 1), image);
}

#[test]
fn strip_outside_whole_blocks_is_black() {
    let image = PixelBuffer::from_raw(5, 3, vec![200u8; 45]).unwrap();
    let out = get_rbg_averages(&image, 2);
    assert_eq!(out.dimensions(), (5, 3));
    for y in 0..3 {
        for x in 0..5 {
            let expected = if x < 4 && y < 2 { (200, 200, 200) } else { (0, 0, 0) };
            assert_eq!(out.get_pixel(x, y), expected);
        }
    }
}

#[test]
fn no_whole_block_gives_a_black_image() {
    let image = PixelBuffer::from_raw(3, 4, vec![77u8; 36]).unwrap();
    let out = get_rbg_averages(&image, 5);
    assert_eq!(out, PixelBuffer::new(3, 4).unwrap());

    // One dimension is large enough, the other is not.
    let image = PixelBuffer::from_raw(6, 2, vec![77u8; 36]).unwrap();
    let out = get_rbg_averages(&image, 3);
    assert_eq!(out, PixelBuffer::new(6, 2).unwrap());
}

#[test]
fn uniform_image_is_kept() {
    let mut data = Vec::new();
    for _ in 0..(6 * 4) {
        data.push(12u8);
        data.push(200);
        data.push(255);
    }
    let image = PixelBuffer::from_raw(6, 4, data).unwrap();
    assert_eq!(get_rbg_averages(&image, 2), image);
}

#[test]
fn empty_image_stays_empty() {
    let image = PixelBuffer::new(0, 0).unwrap();
    assert_eq!(get_rbg_averages(&image, 25), image);
}
