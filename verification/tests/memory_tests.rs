use chip8::memory::{Memory, FONT_ADDRESS, RAM_SIZE, ROM_ADDRESS};
use chip8::Chip8Error;

#[test]
fn new_memory_is_zeroed() {
    let m = Memory::new();
    assert_eq!(m.data.len(), RAM_SIZE);
    assert!(m.data.iter().all(|&b| b == 0));
}

#[test]
fn clear_zeroes_everything() {
    let mut m = Memory::new();
    m.write(0x300, 0xAB);
    m.clear();
    assert!(m.data.iter().all(|&b| b == 0));
}

#[test]
fn read_write_roundtrip() {
    let mut m = Memory::new();
    m.write(0x123, 42);
    assert_eq!(m.read(0x123), 42);
}

#[test]
fn addresses_wrap_modulo_capacity() {
    let mut m = Memory::new();
    // 0x1005 mod 0x1000 == 5
    m.write(0x1005, 7);
    assert_eq!(m.read(5), 7);
    assert_eq!(m.read(0x2005), 7);
}

#[test]
fn load_font_fills_font_region_only() {
    let mut m = Memory::new();
    let font = [0x55u8; 80];
    m.load_font(&font);
    for k in 0..80usize {
        assert_eq!(m.data[FONT_ADDRESS as usize + k], 0x55);
    }
    assert_eq!(m.data[FONT_ADDRESS as usize - 1], 0);
    assert_eq!(m.data[FONT_ADDRESS as usize + 80], 0);
}

#[test]
fn load_program_places_bytes_at_program_region() {
    let mut m = Memory::new();
    let rom = vec![1u8, 2, 3, 4];
    assert!(m.load_program(&rom).is_ok());
    assert_eq!(m.data[ROM_ADDRESS as usize], 1);
    assert_eq!(m.data[ROM_ADDRESS as usize + 3], 4);
    assert_eq!(m.data[ROM_ADDRESS as usize + 4], 0);
}

#[test]
fn load_program_largest_fit_is_accepted() {
    let mut m = Memory::new();
    let rom = vec![9u8; RAM_SIZE - ROM_ADDRESS as usize];
    assert!(m.load_program(&rom).is_ok());
    assert_eq!(m.data[RAM_SIZE - 1], 9);
}

#[test]
fn load_program_too_large_is_rejected_and_writes_nothing() {
    let mut m = Memory::new();
    m.write(0x250, 0x77);
    let rom = vec![9u8; RAM_SIZE - ROM_ADDRESS as usize + 1];
    assert_eq!(m.load_program(&rom), Err(Chip8Error::RomTooLarge));
    assert_eq!(m.read(0x250), 0x77);
    assert_eq!(m.read(ROM_ADDRESS), 0);
}

#[test]
fn empty_program_is_accepted() {
    let mut m = Memory::new();
    let rom: Vec<u8> = Vec::new();
    assert!(m.load_program(&rom).is_ok());
    assert!(m.data.iter().all(|&b| b == 0));
}
