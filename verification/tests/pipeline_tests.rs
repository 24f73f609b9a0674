use pixelator::{
    get_rbg_averages, pixelate, resize_image, Config, PixelBuffer, PixelateError, DEFAULT_INPUT,
    DEFAULT_OUTPUT, DEFAULT_RATIO,
};

fn solid(width: u32, height: u32, rgb: (u8, u8, u8)) -> PixelBuffer {
    let mut data = Vec::new();
    for _ in 0..(width * height) {
        data.push(rgb.0);
        data.push(rgb.1);
        data.push(rgb.2);
    }
    PixelBuffer::from_raw(width, height, data).unwrap()
}

#[test]
fn solid_red_comes_through_unchanged() {
    let image = solid(100, 100, (255, 0, 0));
    let out = pixelate(image, 25).unwrap();
    assert_eq!(out.dimensions(), (100, 100));
    for y in 0..100 {
        for x in 0..100 {
            assert_eq!(out.get_pixel(x, y), (255, 0, 0));
        }
    }
}

#[test]
fn solid_red_through_the_two_stages() {
    let image = solid(100, 100, (255, 0, 0));
    let trimmed = resize_image(image.clone(), 25);
    assert_eq!(trimmed, image);
    let out = get_rbg_averages(&trimmed, 25);
    assert_eq!(out, image);
}

#[test]
fn zero_ratio_is_refused() {
    let image = solid(4, 4, (1, 2, 3));
    assert_eq!(pixelate(image, 0), Err(PixelateError::ZeroRatio));
    let empty = PixelBuffer::new(0, 0).unwrap();
    assert_eq!(pixelate(empty, 0), Err(PixelateError::ZeroRatio));
}

#[test]
fn ratio_above_both_dimensions_gives_an_empty_image() {
    let out = pixelate(solid(10, 20, (9, 9, 9)), 25).unwrap();
    assert_eq!(out.dimensions(), (0, 0));
    assert!(out.into_raw().is_empty());

    let out = pixelate(PixelBuffer::new(0, 0).unwrap(), 25).unwrap();
    assert_eq!(out.dimensions(), (0, 0));
}

#[test]
fn untrimmed_image_is_trimmed_then_averaged() {
    // 5 x 4 with ratio 2: columns 0, 1, 3, 4 remain, then 2 x 2 blocks.
    let mut image = PixelBuffer::new(5, 4).unwrap();
    for y in 0..4u32 {
        for x in 0..5u32 {
            image.put_pixel(x, y, ((10 * x) as u8, (10 * y) as u8, 7));
        }
    }
    let out = pixelate(image, 2).unwrap();
    assert_eq!(out.dimensions(), (4, 4));
    for y in 0..4u32 {
        for x in 0..4u32 {
            let red = if x < 2 { 5 } else { 35 };
            let green = if y < 2 { 5 } else { 25 };
            assert_eq!(out.get_pixel(x, y), (red, green, 7));
        }
    }
}

#[test]
fn default_configuration() {
    let config = Config::default();
    assert_eq!(config.input_path, "dog.jpg");
    assert_eq!(config.output_path, "out.jpg");
    assert_eq!(config.ratio, 25);
    assert_eq!(DEFAULT_INPUT, "dog.jpg");
    assert_eq!(DEFAULT_OUTPUT, "out.jpg");
    assert_eq!(DEFAULT_RATIO, 25);
}

#[test]
fn configuration_from_arguments() {
    let program = String::from("pixelator");
    let input = String::from("in.png");
    let output = String::from("result.png");

    let config = Config::from_args(&vec![]);
    assert_eq!(config, Config::default());

    let config = Config::from_args(&vec![program.clone()]);
    assert_eq!(config, Config::default());

    let config = Config::from_args(&vec![program.clone(), input.clone()]);
    assert_eq!(config.input_path, "in.png");
    assert_eq!(config.output_path, "out.jpg");
    assert_eq!(config.ratio, 25);

    let config = Config::from_args(&vec![program.clone(), input.clone(), output.clone()]);
    assert_eq!(config.input_path, "in.png");
    assert_eq!(config.output_path, "result.png");
    assert_eq!(config.ratio, 25);

    let config = Config::from_args(&vec![program, input, output, String::from("extra")]);
    assert_eq!(config.input_path, "in.png");
    assert_eq!(config.output_path, "result.png");
}

#[test]
fn validation_refuses_only_zero() {
    let mut config = Config::default();
    assert_eq!(config.validate(), Ok(()));
    config.ratio = 1;
    assert_eq!(config.validate(), Ok(()));
    config.ratio = u32::MAX;
    assert_eq!(config.validate(), Ok(()));
    config.ratio = 0;
    assert_eq!(config.validate(), Err(PixelateError::ZeroRatio));
}

#[test]
fn error_has_a_message() {
    assert_eq!(
        PixelateError::ZeroRatio.message(),
        "the block size (ratio) must be at least 1"
    );
}
