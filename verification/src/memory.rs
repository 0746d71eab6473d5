use vstd::prelude::*;

verus! {

/// The built-in hexadecimal sprite font: 16 glyphs of 5 bytes each, resident
/// at addresses 0x000-0x04F. Each byte is one 4-pixel-wide row, most
/// significant bit leftmost.
pub open spec fn font() -> Seq<u8> {
    seq![
        0xF0u8, 0x90, 0x90, 0x90, 0xF0, // 0
        0x20, 0x60, 0x20, 0x20, 0x70, // 1
        0xF0, 0x10, 0xF0, 0x80, 0xF0, // 2
        0xF0, 0x10, 0xF0, 0x10, 0xF0, // 3
        0x90, 0x90, 0xF0, 0x10, 0x10, // 4
        0xF0, 0x80, 0xF0, 0x10, 0xF0, // 5
        0xF0, 0x80, 0xF0, 0x90, 0xF0, // 6
        0xF0, 0x10, 0x20, 0x40, 0x40, // 7
        0xF0, 0x90, 0xF0, 0x90, 0xF0, // 8
        0xF0, 0x90, 0xF0, 0x10, 0xF0, // 9
        0xF0, 0x90, 0xF0, 0x90, 0x90, // A
        0xE0, 0x90, 0xE0, 0x90, 0xE0, // B
        0xF0, 0x80, 0x80, 0x80, 0xF0, // C
        0xE0, 0x90, 0x90, 0x90, 0xE0, // D
        0xF0, 0x80, 0xF0, 0x80, 0xF0, // E
        0xF0, 0x80, 0xF0, 0x80, 0x80, // F
    ]
}

/// The font bytes as an executable vector.
fn font_bytes() -> (v: Vec<u8>)
    ensures
        v@ == font(),
{
    let mut v: Vec<u8> = Vec::new();
    v.push(0xF0); v.push(0x90); v.push(0x90); v.push(0x90); v.push(0xF0);
    v.push(0x20); v.push(0x60); v.push(0x20); v.push(0x20); v.push(0x70);
    v.push(0xF0); v.push(0x10); v.push(0xF0); v.push(0x80); v.push(0xF0);
    v.push(0xF0); v.push(0x10); v.push(0xF0); v.push(0x10); v.push(0xF0);
    v.push(0x90); v.push(0x90); v.push(0xF0); v.push(0x10); v.push(0x10);
    v.push(0xF0); v.push(0x80); v.push(0xF0); v.push(0x10); v.push(0xF0);
    v.push(0xF0); v.push(0x80); v.push(0xF0); v.push(0x90); v.push(0xF0);
    v.push(0xF0); v.push(0x10); v.push(0x20); v.push(0x40); v.push(0x40);
    v.push(0xF0); v.push(0x90); v.push(0xF0); v.push(0x90); v.push(0xF0);
    v.push(0xF0); v.push(0x90); v.push(0xF0); v.push(0x10); v.push(0xF0);
    v.push(0xF0); v.push(0x90); v.push(0xF0); v.push(0x90); v.push(0x90);
    v.push(0xE0); v.push(0x90); v.push(0xE0); v.push(0x90); v.push(0xE0);
    v.push(0xF0); v.push(0x80); v.push(0x80); v.push(0x80); v.push(0xF0);
    v.push(0xE0); v.push(0x90); v.push(0x90); v.push(0x90); v.push(0xE0);
    v.push(0xF0); v.push(0x80); v.push(0xF0); v.push(0x80); v.push(0xF0);
    v.push(0xF0); v.push(0x80); v.push(0xF0); v.push(0x80); v.push(0x80);
    proof {
        assert(v@ =~= font());
    }
    v
}

/// The flat 4096-byte addressable store, pre-seeded with the glyph font.
pub struct RAM {
    memory: Vec<u8>,
}

impl View for RAM {
    type V = Seq<u8>;

    closed spec fn view(&self) -> Seq<u8> {
        self.memory@
    }
}

impl RAM {
    pub open spec fn wf(&self) -> bool {
        self@.len() == 4096
    }

    /// A fresh store: the font at addresses 0x000-0x04F, zero everywhere else.
    pub fn new() -> (ram: RAM)
        ensures
            ram.wf(),
            ram@.subrange(0, 80) == font(),
            forall|a: int| 80 <= a < 4096 ==> ram@[a] == 0,
    {
        let mut memory: Vec<u8> = Vec::new();
        let mut i: usize = 0;
        while i < 4096
            invariant
                memory@.len() == i,
                i <= 4096,
                forall|a: int| 0 <= a < i ==> memory@[a] == 0,
            decreases 4096 - i,
        {
            memory.push(0);
            i = i + 1;
        }
        let f = font_bytes();
        let mut j: usize = 0;
        while j < 80
            invariant
                memory@.len() == 4096,
                f@ == font(),
                j <= 80,
                forall|a: int| 0 <= a < j ==> memory@[a] == font()[a],
                forall|a: int| j <= a < 4096 ==> memory@[a] == 0,
            decreases 80 - j,
        {
            memory.set(j, f[j]);
            j = j + 1;
        }
        let ram = RAM { memory };
        proof {
            assert(ram@.subrange(0, 80) =~= font());
        }
        ram
    }

    /// Read the byte at `address`; addresses run 0x000-0xFFF only.
    pub fn read_byte_from_ram(&self, address: u16) -> (b: u8)
        requires
            self.wf(),
            address < 4096,
        ensures
            b == self@[address as int],
    {
        self.memory[address as usize]
    }

    /// Overwrite the byte at `address`; addresses run 0x000-0xFFF only.
    pub fn write_byte_to_ram(&mut self, address: u16, value: u8)
        requires
            old(self).wf(),
            address < 4096,
        ensures
            final(self).wf(),
            final(self)@ == old(self)@.update(address as int, value),
    {
        self.memory.set(address as usize, value);
    }
}

} // verus!
