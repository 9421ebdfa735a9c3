use chip8::display::FrameBuffer;
use chip8::memory::Memory;

#[test]
fn display_test_read() {
    let mut buff = FrameBuffer::new();
    for k in 0..8 {
        buff.write_bytes((k * 8, 3), &[0xF0]);
    }
    assert_eq!(buff.read((3, 3)), true);
    assert_eq!(buff.read((3, 9)), false);
    assert_eq!(buff.read((4, 3)), false);
    assert_eq!(buff.read((8, 3)), true);
}

#[test]
fn sprite_wraps_horizontally() {
    let mut buff = FrameBuffer::new();
    let erased = buff.write_bytes((62, 0), &[0xFF]);
    assert!(!erased);
    assert!(buff.read((62, 0)) && buff.read((63, 0)));
    for x in 0..6 {
        assert!(buff.read((x, 0)));
    }
    assert!(!buff.read((6, 0)));
    assert!(!buff.read((61, 0)));
}

#[test]
fn sprite_column_wraps_modulo_64() {
    let mut buff = FrameBuffer::new();
    buff.write_bytes((64 + 2, 1), &[0x80]);
    assert!(buff.read((2, 1)));
}

#[test]
fn rows_below_the_screen_are_left_out() {
    let mut buff = FrameBuffer::new();
    let erased = buff.write_bytes((0, 30), &[0x80, 0x80, 0x80, 0x80]);
    assert!(!erased);
    assert!(buff.read((0, 30)) && buff.read((0, 31)));
    let erased = buff.write_bytes((0, 40), &[0xFF]);
    assert!(!erased);
}

#[test]
fn collision_is_any_pixel_turned_off() {
    let mut buff = FrameBuffer::new();
    assert!(!buff.write_bytes((0, 0), &[0x80, 0x00]));
    // the overlap is on the first row only; the last pixel written is not it
    assert!(buff.write_bytes((0, 0), &[0x81, 0x01]));
    assert!(!buff.read((0, 0)));
    assert!(buff.read((7, 0)) && buff.read((7, 1)));
}

#[test]
fn clear_screen_darkens_everything() {
    let mut buff = FrameBuffer::new();
    buff.write_bytes((10, 10), &[0xFF, 0xFF]);
    buff.clear_screen();
    for y in 0..32 {
        for x in 0..64 {
            assert!(!buff.read((x, y)));
        }
    }
}

#[test]
fn pixel_write_flips() {
    let mut buff = FrameBuffer::new();
    buff.write((5, 5), true);
    assert!(buff.read((5, 5)));
    buff.write((5, 5), false);
    assert!(buff.read((5, 5)));
    buff.write((5, 5), true);
    assert!(!buff.read((5, 5)));
}

#[test]
fn scaled_picture() {
    let mut buff = FrameBuffer::new();
    buff.write_bytes((1, 0), &[0x80]);
    let pixels = buff.scaled_pixels();
    assert_eq!(pixels.len(), 640 * 320);
    assert_eq!(pixels[10], 0xFFFFFF);
    assert_eq!(pixels[19 + 9 * 640], 0xFFFFFF);
    assert_eq!(pixels[9], 0);
    assert_eq!(pixels[20], 0);
    assert_eq!(pixels[10 + 10 * 640], 0);
}
