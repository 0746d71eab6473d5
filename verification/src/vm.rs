use vstd::prelude::*;

use crate::bus::Bus;
use crate::cpu::{step_spec, step_uses_rand, vm_view, Chip8Error, VmState, CPU, PROGRAM_START};

verus! {

/// A discrete input event: one key pressed, or every key released. The
/// input model keeps "at most one key held" semantics: any key-up event
/// clears the whole pad.
#[derive(Clone, Copy, Debug, PartialEq, Eq, Structural)]
pub enum KeyEvent {
    Down { key: u8 },
    Up,
}

/// Memory after a ROM image is written into program space (address 0x200
/// on), leaving the interpreter area and the tail untouched.
pub open spec fn rom_loaded(mem: Seq<u8>, rom: Seq<u8>) -> Seq<u8> {
    Seq::new(4096, |a: int| if 512 <= a < 512 + rom.len() { rom[a - 512] } else { mem[a] })
}

/// The virtual machine: a CPU wired to its bus. An external driver calls
/// `step` and `tick_timers` at two independent cadences of its choosing,
/// feeds input through `handle_key_event`, and renders `snapshot_display`;
/// the machine itself does no I/O.
pub struct Chip8 {
    pub cpu: CPU,
    pub bus: Bus,
}

impl Chip8 {
    pub open spec fn wf(&self) -> bool {
        &&& self.cpu.wf()
        &&& self.bus.wf()
    }

    /// The machine's whole state as mathematical data.
    pub open spec fn state(&self) -> VmState {
        vm_view(self.cpu, self.bus)
    }

    /// A fresh machine: reset CPU, font-seeded memory, black screen, no
    /// key down.
    pub fn new() -> (vm: Chip8)
        ensures
            vm.wf(),
            vm.state().pc == 0x200,
            vm.state().i == 0,
            vm.state().sp == 0,
            vm.state().dt == 0,
            vm.state().st == 0,
            vm.state().operand == 0,
            forall|k: int| 0 <= k < 16 ==> vm.state().gp[k] == 0,
            forall|k: int| 0 <= k < 16 ==> vm.state().stack[k] == 0,
            vm.state().mem.subrange(0, 80) == crate::memory::font(),
            forall|a: int| 80 <= a < 4096 ==> vm.state().mem[a] == 0,
            forall|p: int| 0 <= p < 2048 ==> vm.state().gfx[p] == 0,
            forall|k: int| 0 <= k < 16 ==> !vm.state().keys[k],
    {
        Chip8 { cpu: CPU::new(), bus: Bus::new() }
    }

    /// Write a ROM image into memory starting at 0x200: raw bytes, no
    /// header and no validation; malformed programs surface as errors only
    /// when stepped.
    pub fn load_rom(&mut self, game_data: &Vec<u8>)
        requires
            old(self).wf(),
            game_data@.len() <= 4096 - 512,
        ensures
            final(self).wf(),
            final(self).state() == (VmState {
                mem: rom_loaded(old(self).state().mem, game_data@),
                ..old(self).state()
            }),
    {
        let ghost pre = self.state();
        let len = game_data.len();
        let mut idx: usize = 0;
        while idx < len
            invariant
                idx <= len,
                len == game_data@.len(),
                len <= 4096 - 512,
                self.cpu == old(self).cpu,
                self.bus.ram.wf(),
                self.bus.ram@ == Seq::new(
                    4096,
                    |a: int|
                        if 512 <= a < 512 + idx {
                            game_data@[a - 512]
                        } else {
                            pre.mem[a]
                        },
                ),
                self.bus.display.wf(),
                self.bus.display@ == pre.gfx,
                self.bus.keypad.wf(),
                self.bus.keypad@ == pre.keys,
            decreases len - idx,
        {
            self.bus.ram.write_byte_to_ram(PROGRAM_START + idx as u16, game_data[idx]);
            proof {
                assert(self.bus.ram@ =~= Seq::new(
                    4096,
                    |a: int|
                        if 512 <= a < 512 + idx + 1 {
                            game_data@[a - 512]
                        } else {
                            pre.mem[a]
                        },
                ));
            }
            idx = idx + 1;
        }
        proof {
            assert(self.bus.ram@ =~= rom_loaded(pre.mem, game_data@));
            assert(self.state() =~= (VmState { mem: rom_loaded(pre.mem, game_data@), ..pre }));
        }
    }

    /// Execute one instruction. Errors are fatal to the running program
    /// and leave the machine unchanged; the driver decides what to do.
    pub fn step(&mut self) -> (r: Result<(), Chip8Error>)
        requires
            old(self).wf(),
        ensures
            final(self).wf(),
            exists|b: u8|
                final(self).state() == #[trigger] step_spec(old(self).state(), b).0 && r
                    == step_spec(old(self).state(), b).1,
            !step_uses_rand(old(self).state()) ==> final(self).state() == step_spec(
                old(self).state(),
                0,
            ).0 && r == step_spec(old(self).state(), 0).1,
    {
        self.cpu.process_operation(&mut self.bus)
    }

    /// One external 60 Hz timer tick: both timers count down toward zero
    /// and stop there. Returns whether the sound timer was active, asking
    /// the driver to play the beep.
    pub fn tick_timers(&mut self) -> (beep: bool)
        requires
            old(self).wf(),
        ensures
            final(self).wf(),
            final(self).state() == (VmState {
                dt: if old(self).state().dt > 0 {
                    (old(self).state().dt - 1) as u8
                } else {
                    0u8
                },
                st: if old(self).state().st > 0 {
                    (old(self).state().st - 1) as u8
                } else {
                    0u8
                },
                ..old(self).state()
            }),
            beep == (old(self).state().st > 0),
    {
        let beep = self.cpu.update_timers();
        proof {
            assert(self.state() =~= (VmState {
                dt: self.cpu.dt,
                st: self.cpu.st,
                ..old(self).state()
            }));
        }
        beep
    }

    /// Apply one input event to the keypad.
    pub fn handle_key_event(&mut self, event: KeyEvent)
        requires
            old(self).wf(),
            match event {
                KeyEvent::Down { key } => key < 16,
                KeyEvent::Up => true,
            },
        ensures
            final(self).wf(),
            match event {
                KeyEvent::Down { key } => final(self).state() == (VmState {
                    keys: old(self).state().keys.update(key as int, true),
                    ..old(self).state()
                }),
                KeyEvent::Up => {
                    &&& forall|k: int| 0 <= k < 16 ==> !final(self).state().keys[k]
                    &&& final(self).state() == (VmState {
                        keys: final(self).state().keys,
                        ..old(self).state()
                    })
                },
            },
    {
        match event {
            KeyEvent::Down { key } => {
                self.bus.keypad.press_key(key);
            },
            KeyEvent::Up => {
                self.bus.keypad.release_keys();
            },
        }
    }

    /// The pixels as a renderer reads them: 64 x 32, row-major, one byte
    /// per pixel, 0 or 1.
    pub fn snapshot_display(&self) -> (pixels: Vec<u8>)
        requires
            self.wf(),
        ensures
            pixels@ == self.state().gfx,
    {
        self.bus.display.snapshot()
    }
}

} // verus!
