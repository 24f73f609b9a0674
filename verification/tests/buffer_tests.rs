use pixelator::PixelBuffer;

#[test]
fn new_buffer_is_black() {
    let buffer = PixelBuffer::new(3, 2).unwrap();
    assert_eq!(buffer.width(), 3);
    assert_eq!(buffer.height(), 2);
    assert_eq!(buffer.dimensions(), (3, 2));
    assert_eq!(buffer.as_raw(), &vec![0u8; 18]);
    for y in 0..2 {
        for x in 0..3 {
            assert_eq!(buffer.get_pixel(x, y), (0, 0, 0));
        }
    }
}

#[test]
fn new_empty_buffer() {
    let buffer = PixelBuffer::new(0, 7).unwrap();
    assert_eq!(buffer.dimensions(), (0, 7));
    assert!(buffer.into_raw().is_empty());
}

#[test]
fn new_refuses_what_usize_cannot_count() {
    assert!(PixelBuffer::new(u32::MAX, u32::MAX).is_none());
}

#[test]
fn from_raw_accepts_exact_length() {
    let data: Vec<u8> = (0u8..12).collect();
    let buffer = PixelBuffer::from_raw(2, 2, data.clone()).unwrap();
    assert_eq!(buffer.dimensions(), (2, 2));
    assert_eq!(buffer.get_pixel(0, 0), (0, 1, 2));
    assert_eq!(buffer.get_pixel(1, 0), (3, 4, 5));
    assert_eq!(buffer.get_pixel(0, 1), (6, 7, 8));
    assert_eq!(buffer.get_pixel(1, 1), (9, 10, 11));
    assert_eq!(buffer.into_raw(), data);
}

#[test]
fn from_raw_refuses_other_lengths() {
    assert!(PixelBuffer::from_raw(2, 2, vec![0u8; 11]).is_none());
    assert!(PixelBuffer::from_raw(2, 2, vec![0u8; 13]).is_none());
    assert!(PixelBuffer::from_raw(2, 2, Vec::new()).is_none());
    assert!(PixelBuffer::from_raw(0, 0, vec![0u8; 1]).is_none());
    assert!(PixelBuffer::from_raw(0, 5, Vec::new()).is_some());
    assert!(PixelBuffer::from_raw(u32::MAX, u32::MAX, vec![0u8; 3]).is_none());
}

#[test]
fn put_pixel_changes_one_pixel() {
    let mut buffer = PixelBuffer::new(3, 2).unwrap();
    buffer.put_pixel(2, 1, (7, 8, 9));
    buffer.put_pixel(0, 0, (1, 2, 3));
    assert_eq!(
        buffer.as_raw(),
        &vec![1, 2, 3, 0, 0, 0, 0, 0, 0, 0, 0, 0, 0, 0, 0, 7, 8, 9]
    );
    assert_eq!(buffer.get_pixel(2, 1), (7, 8, 9));
    assert_eq!(buffer.get_pixel(1, 1), (0, 0, 0));
}

#[test]
fn equal_buffers_compare_equal() {
    let a = PixelBuffer::from_raw(1, 1, vec![1, 2, 3]).unwrap();
    let b = a.clone();
    let c = PixelBuffer::from_raw(1, 1, vec![1, 2, 4]).unwrap();
    assert_eq!(a, b);
    assert_ne!(a, c);
}
