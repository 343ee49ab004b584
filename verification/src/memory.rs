//! The machine's byte-addressable store: 4096 bytes, with a reserved font
//! region and a reserved program region.
use vstd::prelude::*;

use crate::Chip8Error;

verus! {

/// Number of bytes of RAM.
pub const RAM_SIZE: usize = 4096;

/// Start of the 80-byte font region (16 glyphs of 5 bytes each).
pub const FONT_ADDRESS: u16 = 0x050;

/// Start of the program region; loaded ROM bytes are placed here and the
/// program counter is seeded here at reset.
pub const ROM_ADDRESS: u16 = 0x200;

/// A fixed-size byte store. Addresses coming from instruction execution are
/// reduced modulo the capacity rather than rejected, so every read and write
/// lands inside the store.
pub struct Memory {
    pub data: Vec<u8>,
}

impl Memory {
    /// The store always holds exactly `RAM_SIZE` bytes.
    pub open spec fn wf(self) -> bool {
        self.data@.len() == RAM_SIZE
    }

    pub fn new() -> (m: Memory)
        ensures
            m.wf(),
            forall|a: int| 0 <= a < RAM_SIZE ==> m.data@[a] == 0u8,
    {
        let mut data: Vec<u8> = Vec::new();
        let mut k: usize = 0;
        while k < RAM_SIZE
            invariant
                k == data@.len(),
                k <= RAM_SIZE,
                forall|a: int| 0 <= a < k ==> data@[a] == 0u8,
            decreases RAM_SIZE - k,
        {
            data.push(0);
            k = k + 1;
        }
        Memory { data }
    }

    /// Zero every byte.
    pub fn clear(&mut self)
        requires
            old(self).wf(),
        ensures
            final(self).wf(),
            forall|a: int| 0 <= a < RAM_SIZE ==> final(self).data@[a] == 0u8,
    {
        let mut k: usize = 0;
        while k < RAM_SIZE
            invariant
                self.data@.len() == RAM_SIZE,
                k <= RAM_SIZE,
                forall|a: int| 0 <= a < k ==> self.data@[a] == 0u8,
            decreases RAM_SIZE - k,
        {
            self.data.set(k, 0);
            k = k + 1;
        }
    }

    /// Read the byte at `addr`, the address taken modulo the capacity.
    pub fn read(&self, addr: u16) -> (b: u8)
        requires
            self.wf(),
        ensures
            b == self.data@[addr as int % RAM_SIZE as int],
    {
        self.data[(addr as usize) % RAM_SIZE]
    }

    /// Write `value` at `addr`, the address taken modulo the capacity.
    pub fn write(&mut self, addr: u16, value: u8)
        requires
            old(self).wf(),
        ensures
            final(self).wf(),
            final(self).data@ == old(self).data@.update(
                addr as int % RAM_SIZE as int,
                value,
            ),
    {
        let idx: usize = (addr as usize) % RAM_SIZE;
        self.data.set(idx, value);
    }

    /// Copy an 80-byte font table into the font region; the rest of the store
    /// is untouched.
    pub fn load_font(&mut self, font: &[u8; 80])
        requires
            old(self).wf(),
        ensures
            final(self).wf(),
            forall|a: int|
                0 <= a < RAM_SIZE ==> final(self).data@[a] == (if FONT_ADDRESS as int <= a
                    < FONT_ADDRESS as int + 80 {
                    font@[a - FONT_ADDRESS as int]
                } else {
                    old(self).data@[a]
                }),
    {
        let mut k: usize = 0;
        while k < 80
            invariant
                self.data@.len() == RAM_SIZE,
                k <= 80,
                forall|a: int|
                    0 <= a < RAM_SIZE ==> self.data@[a] == (if FONT_ADDRESS as int <= a
                        < FONT_ADDRESS as int + k {
                        font@[a - FONT_ADDRESS as int]
                    } else {
                        old(self).data@[a]
                    }),
            decreases 80 - k,
        {
            self.data.set(FONT_ADDRESS as usize + k, font[k]);
            k = k + 1;
        }
    }

    /// Copy `rom` into the program region. Fails with `RomTooLarge`, writing
    /// nothing, exactly when the bytes would run past the end of the store.
    pub fn load_program(&mut self, rom: &[u8]) -> (r: Result<(), Chip8Error>)
        requires
            old(self).wf(),
        ensures
            final(self).wf(),
            (r is Err) <==> rom@.len() + ROM_ADDRESS as int > RAM_SIZE as int,
            r is Err ==> r == Err::<(), Chip8Error>(Chip8Error::RomTooLarge) && final(self).data@
                == old(self).data@,
            r is Ok ==> forall|a: int|
                0 <= a < RAM_SIZE ==> final(self).data@[a] == (if ROM_ADDRESS as int <= a
                    < ROM_ADDRESS as int + rom@.len() {
                    rom@[a - ROM_ADDRESS as int]
                } else {
                    old(self).data@[a]
                }),
    {
        if rom.len() > RAM_SIZE - ROM_ADDRESS as usize {
            return Err(Chip8Error::RomTooLarge);
        }
        let mut k: usize = 0;
        while k < rom.len()
            invariant
                self.data@.len() == RAM_SIZE,
                k <= rom@.len(),
                rom@.len() <= RAM_SIZE - ROM_ADDRESS as int,
                forall|a: int|
                    0 <= a < RAM_SIZE ==> self.data@[a] == (if ROM_ADDRESS as int <= a
                        < ROM_ADDRESS as int + k {
                        rom@[a - ROM_ADDRESS as int]
                    } else {
                        old(self).data@[a]
                    }),
            decreases rom@.len() - k,
        {
            self.data.set(ROM_ADDRESS as usize + k, rom[k]);
            k = k + 1;
        }
        Ok(())
    }
}

} // verus!
