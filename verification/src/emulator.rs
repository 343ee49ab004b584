//! The machine assembled: interpreter, memory, display and key state, with
//! ROM and font loading, reset, and the per-cycle entry point a driver calls.
use vstd::prelude::*;

use crate::cpu::{model, spec_decode, spec_fetch, spec_step, Instruction, CPU};
use crate::display::{Display, PixelBuffer};
use crate::memory::{Memory, RAM_SIZE};
use crate::{Chip8Error, StepOutcome};

pub use crate::memory::{FONT_ADDRESS, ROM_ADDRESS};

verus! {

broadcast use vstd::array::group_array_axioms;

/// The built-in glyph table: 16 hex-digit glyphs of 5 bytes each.
pub open spec fn spec_default_font() -> Seq<u8> {
    seq![
        0xF0u8, 0x90, 0x90, 0x90, 0xF0,
        0x20, 0x60, 0x20, 0x20, 0x70,
        0xF0, 0x10, 0xF0, 0x80, 0xF0,
        0xF0, 0x10, 0xF0, 0x10, 0xF0,
        0x90, 0x90, 0xF0, 0x10, 0x10,
        0xF0, 0x80, 0xF0, 0x10, 0xF0,
        0xF0, 0x80, 0xF0, 0x90, 0xF0,
        0xF0, 0x10, 0x20, 0x40, 0x40,
        0xF0, 0x90, 0xF0, 0x90, 0xF0,
        0xF0, 0x90, 0xF0, 0x10, 0xF0,
        0xF0, 0x90, 0xF0, 0x90, 0x90,
        0xE0, 0x90, 0xE0, 0x90, 0xE0,
        0xF0, 0x80, 0x80, 0x80, 0xF0,
        0xE0, 0x90, 0x90, 0x90, 0xE0,
        0xF0, 0x80, 0xF0, 0x80, 0xF0,
        0xF0, 0x80, 0xF0, 0x80, 0x80,
    ]
}

/// The whole machine, owned for the lifetime of one loaded program.
pub struct Emulator {
    pub cpu: CPU,
    pub memory: Memory,
    pub display: Display,
    pub keys: [bool; 16],
    pub is_rom_loaded: bool,
}

/// The machine state right after a reset: program counter seeded at the
/// program region, registers, stack, index and timers zero, memory zero but
/// for the font region holding the built-in glyphs, display blank, no key
/// pressed, no program loaded.
pub open spec fn fresh_machine(e: Emulator) -> bool {
    &&& e.wf()
    &&& e.cpu.pc == ROM_ADDRESS
    &&& e.cpu.sp == 0u8
    &&& e.cpu.i == 0u16
    &&& e.cpu.delay_timer == 0u8
    &&& e.cpu.sound_timer == 0u8
    &&& (forall|k: int| 0 <= k < 16 ==> e.cpu.v@[k] == 0u8)
    &&& (forall|k: int| 0 <= k < 16 ==> e.cpu.stack@[k] == 0u16)
    &&& (forall|a: int|
        0 <= a < RAM_SIZE ==> e.memory.data@[a] == (if FONT_ADDRESS as int <= a < FONT_ADDRESS as int
            + 80 {
            spec_default_font()[a - FONT_ADDRESS as int]
        } else {
            0u8
        }))
    &&& (forall|p: int| 0 <= p < 2048 ==> !e.display.pixels@[p])
    &&& (forall|k: int| 0 <= k < 16 ==> !e.keys@[k])
    &&& !e.is_rom_loaded
}

impl Emulator {
    /// Every component keeps its structural bounds.
    pub open spec fn wf(self) -> bool {
        &&& self.cpu.wf()
        &&& self.memory.wf()
        &&& self.display.wf()
    }

    /// A fresh machine with the default quirk configuration and the built-in
    /// font already in place.
    pub fn new() -> (e: Emulator)
        ensures
            fresh_machine(e),
            e.cpu.config.shift_copies_operand,
            !e.cpu.config.jump_uses_operand_register,
            e.cpu.config.index_advances_on_bulk_transfer,
    {
        let cpu = CPU::new(ROM_ADDRESS);
        let mut memory = Memory::new();
        memory.load_font(&Emulator::get_default_font());
        let display = Display::new(64, 32);
        Emulator { cpu, memory, display, keys: [false; 16], is_rom_loaded: false }
    }

    /// Back to the reset state; only the quirk configuration survives.
    pub fn reset(&mut self)
        requires
            old(self).wf(),
        ensures
            fresh_machine(*final(self)),
            final(self).cpu.config == old(self).cpu.config,
    {
        self.cpu = CPU::new_with_config(ROM_ADDRESS, self.cpu.config);
        self.memory.clear();
        self.memory.load_font(&Emulator::get_default_font());
        self.display.clear();
        self.keys = [false; 16];
        self.is_rom_loaded = false;
    }

    /// Copy an 80-byte font table into the font region; nothing else moves.
    pub fn set_font(&mut self, font: [u8; 80])
        requires
            old(self).wf(),
        ensures
            final(self).wf(),
            *final(self) == (Emulator { memory: final(self).memory, ..*old(self) }),
            forall|a: int|
                0 <= a < RAM_SIZE ==> final(self).memory.data@[a] == (if FONT_ADDRESS as int <= a
                    < FONT_ADDRESS as int + 80 {
                    font@[a - FONT_ADDRESS as int]
                } else {
                    old(self).memory.data@[a]
                }),
    {
        self.memory.load_font(&font);
    }

    /// The built-in hex-digit glyph table.
    pub fn get_default_font() -> (font: [u8; 80])
        ensures
            font@ == spec_default_font(),
    {
        let font: [u8; 80] = [
            0xF0, 0x90, 0x90, 0x90, 0xF0,
            0x20, 0x60, 0x20, 0x20, 0x70,
            0xF0, 0x10, 0xF0, 0x80, 0xF0,
            0xF0, 0x10, 0xF0, 0x10, 0xF0,
            0x90, 0x90, 0xF0, 0x10, 0x10,
            0xF0, 0x80, 0xF0, 0x10, 0xF0,
            0xF0, 0x80, 0xF0, 0x90, 0xF0,
            0xF0, 0x10, 0x20, 0x40, 0x40,
            0xF0, 0x90, 0xF0, 0x90, 0xF0,
            0xF0, 0x90, 0xF0, 0x10, 0xF0,
            0xF0, 0x90, 0xF0, 0x90, 0x90,
            0xE0, 0x90, 0xE0, 0x90, 0xE0,
            0xF0, 0x80, 0x80, 0x80, 0xF0,
            0xE0, 0x90, 0x90, 0x90, 0xE0,
            0xF0, 0x80, 0xF0, 0x80, 0xF0,
            0xF0, 0x80, 0xF0, 0x80, 0x80,
        ];
        proof {
            assert(font@ =~= spec_default_font());
        }
        font
    }

    /// Load a program: rejected outright, with the machine untouched, when it
    /// would run past the end of memory; otherwise the machine is reset and
    /// the bytes placed at the program region.
    pub fn load_rom(&mut self, rom: &[u8]) -> (r: Result<(), Chip8Error>)
        requires
            old(self).wf(),
        ensures
            final(self).wf(),
            (r is Err) <==> rom@.len() + ROM_ADDRESS as int > RAM_SIZE as int,
            r is Err ==> r == Err::<(), Chip8Error>(Chip8Error::RomTooLarge) && *final(self) == *old(
                self,
            ),
            r is Ok ==> ({
                &&& final(self).is_rom_loaded
                &&& final(self).cpu.config == old(self).cpu.config
                &&& final(self).cpu.pc == ROM_ADDRESS
                &&& final(self).cpu.sp == 0u8
                &&& final(self).cpu.i == 0u16
                &&& final(self).cpu.delay_timer == 0u8
                &&& final(self).cpu.sound_timer == 0u8
                &&& (forall|k: int| 0 <= k < 16 ==> final(self).cpu.v@[k] == 0u8)
                &&& (forall|k: int| 0 <= k < 16 ==> final(self).cpu.stack@[k] == 0u16)
                &&& (forall|p: int| 0 <= p < 2048 ==> !final(self).display.pixels@[p])
                &&& (forall|k: int| 0 <= k < 16 ==> !final(self).keys@[k])
                &&& (forall|a: int|
                    0 <= a < RAM_SIZE ==> final(self).memory.data@[a] == (if ROM_ADDRESS as int <= a
                        < ROM_ADDRESS as int + rom@.len() {
                        rom@[a - ROM_ADDRESS as int]
                    } else if FONT_ADDRESS as int <= a < FONT_ADDRESS as int + 80 {
                        spec_default_font()[a - FONT_ADDRESS as int]
                    } else {
                        0u8
                    }))
            }),
    {
        if rom.len() > RAM_SIZE - ROM_ADDRESS as usize {
            return Err(Chip8Error::RomTooLarge);
        }
        self.reset();
        let loaded = self.memory.load_program(rom);
        proof {
            assert(loaded is Ok);
        }
        self.is_rom_loaded = true;
        Ok(())
    }

    /// Record one key as pressed or released; indices outside the 16-key pad
    /// are ignored.
    pub fn set_key(&mut self, key: u16, pressed: bool)
        ensures
            *final(self) == (Emulator { keys: final(self).keys, ..*old(self) }),
            key < 16 ==> final(self).keys@ == old(self).keys@.update(key as int, pressed),
            key >= 16 ==> final(self).keys == old(self).keys,
    {
        if key < 16 {
            self.keys[key as usize] = pressed;
        }
    }

    /// One driver cycle: with a program loaded, fetch, decode and execute one
    /// instruction against the current key state and report what it did;
    /// without one, do nothing.
    pub fn cycle(&mut self) -> (o: Option<StepOutcome>)
        requires
            old(self).wf(),
        ensures
            final(self).wf(),
            !old(self).is_rom_loaded ==> *final(self) == *old(self) && o is None,
            old(self).is_rom_loaded ==> ({
                let m0 = model(old(self).cpu, old(self).memory, old(self).display);
                let m1 = model(final(self).cpu, final(self).memory, final(self).display);
                let ins = spec_decode(spec_fetch(m0.mem, m0.pc));
                &&& o is Some
                &&& final(self).keys == old(self).keys
                &&& final(self).is_rom_loaded
                &&& final(self).cpu.config == old(self).cpu.config
                &&& exists|r: u8|
                    (#[trigger] spec_step(m0, ins, old(self).keys@, r, old(self).cpu.config)) == (
                    m1,
                    o->Some_0,
                    )
                &&& !(ins is RandomMask) ==> spec_step(m0, ins, old(self).keys@, 0u8, old(
                    self,
                ).cpu.config) == (m1, o->Some_0)
            }),
    {
        if self.is_rom_loaded {
            let o = self.cpu.decode(&mut self.memory, &mut self.display, &self.keys);
            Some(o)
        } else {
            None
        }
    }

    /// The current frame, for a renderer.
    pub fn frame(&self) -> (f: PixelBuffer)
        requires
            self.wf(),
        ensures
            f.wf(),
            f.pixels@ == self.display.pixels@,
    {
        self.display.frame()
    }

    /// One tick of the autonomous 60 Hz timer process.
    pub fn tick_timers(&mut self)
        requires
            old(self).wf(),
        ensures
            final(self).wf(),
            *final(self) == (Emulator { cpu: final(self).cpu, ..*old(self) }),
            final(self).cpu == (CPU {
                delay_timer: final(self).cpu.delay_timer,
                sound_timer: final(self).cpu.sound_timer,
                ..old(self).cpu
            }),
            final(self).cpu.delay_timer == if old(self).cpu.delay_timer > 0 {
                old(self).cpu.delay_timer - 1
            } else {
                0
            },
            final(self).cpu.sound_timer == if old(self).cpu.sound_timer > 0 {
                old(self).cpu.sound_timer - 1
            } else {
                0
            },
    {
        self.cpu.tick_timers();
    }
}

} // verus!
