use chip8::emulator::{Emulator, FONT_ADDRESS, ROM_ADDRESS};
use chip8::{Chip8Error, StepOutcome};

#[test]
fn new_emulator_is_a_fresh_machine_with_the_font_in_place() {
    let e = Emulator::new();
    assert_eq!(e.cpu.pc, ROM_ADDRESS);
    assert_eq!(e.cpu.sp, 0);
    assert!(!e.is_rom_loaded);
    let font = Emulator::get_default_font();
    for k in 0..80usize {
        assert_eq!(e.memory.data[FONT_ADDRESS as usize + k], font[k]);
    }
    assert!(e.display.pixels.iter().all(|&p| !p));
}

#[test]
fn default_font_has_the_expected_glyphs() {
    let font = Emulator::get_default_font();
    assert_eq!(font.len(), 80);
    assert_eq!(&font[0..5], &[0xF0, 0x90, 0x90, 0x90, 0xF0]); // 0
    assert_eq!(&font[5..10], &[0x20, 0x60, 0x20, 0x20, 0x70]); // 1
    assert_eq!(&font[75..80], &[0xF0, 0x80, 0xF0, 0x80, 0x80]); // F
}

#[test]
fn cycle_without_a_rom_does_nothing() {
    let mut e = Emulator::new();
    let pc = e.cpu.pc;
    assert_eq!(e.cycle(), None);
    assert_eq!(e.cpu.pc, pc);
}

#[test]
fn load_rom_places_the_program_and_marks_it_loaded() {
    let mut e = Emulator::new();
    assert_eq!(e.load_rom(&[0x60, 0x0A]), Ok(()));
    assert!(e.is_rom_loaded);
    assert_eq!(e.memory.data[ROM_ADDRESS as usize], 0x60);
    assert_eq!(e.memory.data[ROM_ADDRESS as usize + 1], 0x0A);
    // font survives the load
    assert_eq!(e.memory.data[FONT_ADDRESS as usize], 0xF0);
}

#[test]
fn too_large_rom_is_rejected_and_the_machine_is_untouched() {
    let mut e = Emulator::new();
    assert_eq!(e.load_rom(&[0x60, 0x07]), Ok(()));
    e.cycle();
    let v0 = e.cpu.v[0];
    let pc = e.cpu.pc;
    let huge = vec![0u8; 4096 - ROM_ADDRESS as usize + 1];
    assert_eq!(e.load_rom(&huge), Err(Chip8Error::RomTooLarge));
    assert!(e.is_rom_loaded);
    assert_eq!(e.cpu.v[0], v0);
    assert_eq!(e.cpu.pc, pc);
    assert_eq!(e.memory.data[ROM_ADDRESS as usize], 0x60);
}

#[test]
fn reset_returns_to_the_fresh_state() {
    let mut e = Emulator::new();
    assert_eq!(e.load_rom(&[0x60, 0x07]), Ok(()));
    e.cycle();
    e.set_key(3, true);
    e.reset();
    assert_eq!(e.cpu.pc, ROM_ADDRESS);
    assert_eq!(e.cpu.v[0], 0);
    assert!(!e.is_rom_loaded);
    assert!(e.keys.iter().all(|&k| !k));
    assert_eq!(e.memory.data[ROM_ADDRESS as usize], 0);
}

#[test]
fn set_key_records_presses_and_ignores_bad_indices() {
    let mut e = Emulator::new();
    e.set_key(3, true);
    assert!(e.keys[3]);
    e.set_key(3, false);
    assert!(!e.keys[3]);
    e.set_key(16, true);
    e.set_key(900, true);
    assert!(e.keys.iter().all(|&k| !k));
}

#[test]
fn set_font_overrides_the_font_region() {
    let mut e = Emulator::new();
    e.set_font([0x11; 80]);
    for k in 0..80usize {
        assert_eq!(e.memory.data[FONT_ADDRESS as usize + k], 0x11);
    }
}

#[test]
fn clear_screen_program_blanks_a_dirtied_display() {
    // a 2-byte program: 00 E0, run against a display with pixels set
    let mut e = Emulator::new();
    assert_eq!(e.load_rom(&[0x00, 0xE0]), Ok(()));
    e.display.pixels[0] = true;
    e.display.pixels[100] = true;
    e.display.pixels[2047] = true;
    let o = e.cycle();
    assert_eq!(o, Some(StepOutcome::Advanced));
    assert!(e.display.pixels.iter().all(|&p| !p));
    assert_eq!(e.cpu.pc, 0x202);
}

#[test]
fn font_character_program_points_the_index_at_the_glyph() {
    // 60 0A: load 0x0A into register 0; F0 29: font character for register 0
    let mut e = Emulator::new();
    assert_eq!(e.load_rom(&[0x60, 0x0A, 0xF0, 0x29]), Ok(()));
    assert_eq!(e.cycle(), Some(StepOutcome::Advanced));
    assert_eq!(e.cpu.v[0], 0x0A);
    assert_eq!(e.cycle(), Some(StepOutcome::Advanced));
    assert_eq!(e.cpu.i, FONT_ADDRESS + 5 * 10);
}

#[test]
fn draw_program_renders_the_sprite_at_the_top_left() {
    // A2 10: index at 0x210; 60 00 / 61 00: zero registers 0 and 1;
    // D0 15: draw 5 rows at (register 0, register 1).
    // The ROM carries the sprite itself at offset 0x10 (address 0x210).
    let sprite = [0xF0u8, 0x90, 0x90, 0x90, 0xF0];
    let mut rom = vec![0xA2, 0x10, 0x60, 0x00, 0x61, 0x00, 0xD0, 0x15];
    rom.resize(0x10, 0);
    rom.extend_from_slice(&sprite);
    let mut e = Emulator::new();
    assert_eq!(e.load_rom(&rom), Ok(()));
    for _ in 0..4 {
        assert!(e.cycle().is_some());
    }
    assert_eq!(e.cpu.i, 0x210);
    assert_eq!(e.cpu.v[15], 0, "no pre-existing pixel was erased");
    let f = e.frame();
    for row in 0..5usize {
        for col in 0..8usize {
            let expected = (sprite[row] >> (7 - col)) & 1 == 1;
            assert_eq!(f.get_pixel(col, row), expected, "pixel ({col},{row})");
        }
    }
    // nothing outside the sprite's footprint is lit
    for col in 8..64usize {
        for row in 0..32usize {
            assert!(!f.get_pixel(col, row));
        }
    }
}

#[test]
fn random_program_with_zero_mask_is_pinned() {
    // C1 00: random byte masked with 0 always stores 0
    let mut e = Emulator::new();
    assert_eq!(e.load_rom(&[0xC1, 0x00]), Ok(()));
    e.cpu.v[1] = 0x55;
    assert_eq!(e.cycle(), Some(StepOutcome::Advanced));
    assert_eq!(e.cpu.v[1], 0);
}

#[test]
fn unknown_opcode_in_a_program_is_absorbed() {
    let mut e = Emulator::new();
    assert_eq!(e.load_rom(&[0xF1, 0xFF, 0x60, 0x09]), Ok(()));
    assert_eq!(
        e.cycle(),
        Some(StepOutcome::Faulted(Chip8Error::UnknownOpcode))
    );
    // execution continues: the next instruction still runs
    assert_eq!(e.cycle(), Some(StepOutcome::Advanced));
    assert_eq!(e.cpu.v[0], 9);
}

#[test]
fn wait_for_key_program_stalls_then_advances() {
    // F2 0A: wait for a key into register 2
    let mut e = Emulator::new();
    assert_eq!(e.load_rom(&[0xF2, 0x0A]), Ok(()));
    assert_eq!(e.cycle(), Some(StepOutcome::Waiting));
    assert_eq!(e.cycle(), Some(StepOutcome::Waiting));
    assert_eq!(e.cpu.pc, 0x200);
    e.set_key(0xB, true);
    assert_eq!(e.cycle(), Some(StepOutcome::Advanced));
    assert_eq!(e.cpu.pc, 0x202);
    assert_eq!(e.cpu.v[2], 0xB);
}

#[test]
fn emulator_timer_ticks_mirror_the_cpu_timers() {
    let mut e = Emulator::new();
    assert_eq!(e.load_rom(&[0x61, 0x02, 0xF1, 0x15]), Ok(()));
    e.cycle();
    e.cycle();
    assert_eq!(e.cpu.delay_timer, 2);
    e.tick_timers();
    assert_eq!(e.cpu.delay_timer, 1);
    e.tick_timers();
    e.tick_timers();
    assert_eq!(e.cpu.delay_timer, 0);
}

#[test]
fn frame_reflects_the_display() {
    let mut e = Emulator::new();
    e.display.pixels[65] = true; // (1, 1)
    let f = e.frame();
    assert!(f.get_pixel(1, 1));
    assert!(!f.get_pixel(0, 0));
}
