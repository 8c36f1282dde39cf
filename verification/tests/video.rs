use pifbip::video::{rgb_to_buffer, rgb_to_rgba};
use pifbip::FrameSize;

#[test]
fn frame_sizes() {
    assert_eq!(FrameSize { w: 800, h: 600 }.frame_bytes(), 1_440_000);
    assert_eq!(FrameSize { w: 0, h: 600 }.frame_bytes(), 0);
}

#[test]
fn pixel_conversions() {
    let rgb = vec![1u8, 2, 3, 255, 128, 0, 9];
    assert_eq!(rgb_to_buffer(&rgb, 2), vec![0x010203, 0xFF8000]);
    assert_eq!(rgb_to_rgba(&rgb), vec![1, 2, 3, 255, 255, 128, 0, 255]);
    assert_eq!(rgb_to_rgba(&vec![]), Vec::<u8>::new());
}
