//! The framebuffer and keypad on their own, plus the font loader.

use chip8::cpu::load_sprites;
use chip8::display::Display;
use chip8::keyboard::KeyBoard;

#[test]
fn display_starts_blank() {
    let d = Display::new();
    for y in 0..32 {
        for x in 0..64 {
            assert!(!d.pixel(x, y));
        }
    }
}

#[test]
fn set_pixel_toggles_and_reports_erasure() {
    let mut d = Display::new();
    assert!(!d.set_pixel(10, 20)); // was off: no erasure
    assert!(d.pixel(10, 20));
    assert!(d.set_pixel(10, 20)); // was on: erased
    assert!(!d.pixel(10, 20));
}

#[test]
fn set_pixel_wraps_coordinates() {
    let mut d = Display::new();
    assert!(!d.set_pixel(70, 35)); // lands on (6, 3)
    assert!(d.pixel(6, 3));
    assert!(d.set_pixel(6, 3));
    assert!(!d.pixel(6, 3));
    d.set_pixel(64, 32); // lands on (0, 0)
    assert!(d.pixel(0, 0));
}

#[test]
fn clear_erases_everything() {
    let mut d = Display::new();
    d.set_pixel(0, 0);
    d.set_pixel(63, 31);
    d.clear();
    for y in 0..32 {
        for x in 0..64 {
            assert!(!d.pixel(x, y));
        }
    }
}

#[test]
fn keyboard_tracks_presses() {
    let mut kb = KeyBoard::new();
    for k in 0..16 {
        assert!(!kb.is_pressed(k));
    }
    assert_eq!(kb.last_key(), None);
    kb.on_key_down(7);
    assert!(kb.is_pressed(7));
    assert!(!kb.is_pressed(8));
    assert_eq!(kb.last_key(), Some(7));
    kb.on_key_down(3);
    assert_eq!(kb.last_key(), Some(3));
    kb.on_key_up(7);
    assert!(!kb.is_pressed(7));
    assert!(kb.is_pressed(3));
    assert_eq!(kb.last_key(), Some(3));
    kb.clear_last();
    assert_eq!(kb.last_key(), None);
    assert!(kb.is_pressed(3));
}

#[test]
fn font_loader_writes_all_sixteen_glyphs() {
    let mut memory = vec![0u8; 4096];
    load_sprites(&mut memory);
    assert_eq!(&memory[0..5], &[0xF0, 0x90, 0x90, 0x90, 0xF0]); // glyph 0
    assert_eq!(&memory[5..10], &[0x20, 0x60, 0x20, 0x20, 0x70]); // glyph 1
    assert_eq!(&memory[75..80], &[0xF0, 0x80, 0xF0, 0x80, 0x80]); // glyph F
    assert!(memory[80..].iter().all(|&b| b == 0));
}
