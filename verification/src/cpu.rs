use vstd::prelude::*;
use vstd::arithmetic::div_mod::lemma_mod_add_multiples_vanish;

use crate::bus::Bus;
use crate::display::{cleared_gfx, draw_collides, draw_gfx, wf_gfx};
use crate::keypad::highest_down;

verus! {

/// Execution begins here; the addresses below are the interpreter's
/// reserved area (the font lives at its bottom).
pub const PROGRAM_START: u16 = 0x200;

/// The fatal failures a step can surface. All are unrecoverable: a failing
/// step leaves the whole machine exactly as it was before the step.
#[derive(Clone, Copy, Debug, PartialEq, Eq, Structural)]
pub enum Chip8Error {
    /// No dispatch pattern matched the fetched instruction word.
    InvalidOpcode { operand: u16 },
    /// A call found the 16-entry return stack already holding 15 return
    /// addresses: one more would run the stack pointer past its last slot.
    StackOverflow,
    /// A return was executed with an empty call stack.
    StackUnderflow,
    /// A read or write touched an address outside 0x000-0xFFF.
    MemoryOutOfBounds { address: u16 },
}

/// The whole machine as mathematical data: the CPU registers together with
/// the bus contents (memory, framebuffer, keypad).
#[verifier::ext_equal]
pub ghost struct VmState {
    pub gp: Seq<u8>,
    pub pc: int,
    pub i: int,
    pub stack: Seq<u16>,
    pub sp: int,
    pub dt: u8,
    pub st: u8,
    pub operand: u16,
    pub mem: Seq<u8>,
    pub gfx: Seq<u8>,
    pub keys: Seq<bool>,
}

pub open spec fn wf_state(s: VmState) -> bool {
    &&& s.gp.len() == 16
    &&& s.stack.len() == 16
    &&& 0 <= s.sp <= 15
    &&& 0 <= s.pc < 65536
    &&& 0 <= s.i < 65536
    &&& s.mem.len() == 4096
    &&& wf_gfx(s.gfx)
    &&& s.keys.len() == 16
}

/// The instruction word at the program counter, bytes combined big-endian.
pub open spec fn fetched_op(s: VmState) -> int {
    s.mem[s.pc] * 256 + s.mem[s.pc + 1]
}

/// The address reported when a run of consecutive accesses starting at
/// `base` leaves memory: the first touched address at or past the end.
pub open spec fn oob_address(base: int) -> u16 {
    if base >= 4096 {
        base as u16
    } else {
        4096u16
    }
}

/// Memory after registers V0..=Vx are stored at `base` (the Fx55 store).
pub open spec fn regs_stored(mem: Seq<u8>, base: int, gp: Seq<u8>, x: int) -> Seq<u8> {
    Seq::new(4096, |a: int| if base <= a <= base + x { gp[a - base] } else { mem[a] })
}

/// Registers after memory at `base` is read into V0..=Vx (the Fx65 load).
pub open spec fn regs_loaded(gp: Seq<u8>, mem: Seq<u8>, base: int, x: int) -> Seq<u8> {
    Seq::new(16, |k: int| if 0 <= k <= x { mem[base + k] } else { gp[k] })
}

/// The machine after executing the already-fetched word `op`: each arm
/// gives one opcode's byte-exact semantics, with the program counter
/// already advanced past the instruction. `rand` is the byte the random
/// source yields, consulted only by Cxkk. On an error the machine is
/// returned unchanged.
pub open spec fn dispatch_spec(pre: VmState, op: int, rand: u8) -> (VmState, Result<
    (),
    Chip8Error,
>) {
    let s = VmState { operand: op as u16, pc: pre.pc + 2, ..pre };
    let pc2 = pre.pc + 2;
    let nnn = op % 4096;
    let kk = (op % 256) as u8;
    let n = op % 16;
    let x = (op / 256) % 16;
    let y = (op / 16) % 16;
    let o1 = op / 4096;
    let o3 = (op / 16) % 16;
    let o4 = op % 16;
    let vx = pre.gp[x];
    let vy = pre.gp[y];
    if op == 0x00E0 {
        (VmState { gfx: cleared_gfx(), ..s }, Ok(()))
    } else if op == 0x00EE {
        if pre.sp == 0 {
            (pre, Err(Chip8Error::StackUnderflow))
        } else {
            (VmState { pc: pre.stack[pre.sp - 1] as int, sp: pre.sp - 1, ..s }, Ok(()))
        }
    } else if o1 == 0x1 {
        (VmState { pc: nnn, ..s }, Ok(()))
    } else if o1 == 0x2 {
        if pre.sp >= 15 {
            (pre, Err(Chip8Error::StackOverflow))
        } else {
            (
                VmState {
                    pc: nnn,
                    stack: pre.stack.update(pre.sp, pc2 as u16),
                    sp: pre.sp + 1,
                    ..s
                },
                Ok(()),
            )
        }
    } else if o1 == 0x3 {
        (VmState { pc: if vx == kk { pc2 + 2 } else { pc2 }, ..s }, Ok(()))
    } else if o1 == 0x4 {
        (VmState { pc: if vx != kk { pc2 + 2 } else { pc2 }, ..s }, Ok(()))
    } else if o1 == 0x5 && o4 == 0x0 {
        (VmState { pc: if vx == vy { pc2 + 2 } else { pc2 }, ..s }, Ok(()))
    } else if o1 == 0x6 {
        (VmState { gp: pre.gp.update(x, kk), ..s }, Ok(()))
    } else if o1 == 0x7 {
        (VmState { gp: pre.gp.update(x, ((vx + kk) % 256) as u8), ..s }, Ok(()))
    } else if o1 == 0x8 && o4 == 0x0 {
        (VmState { gp: pre.gp.update(x, vy), ..s }, Ok(()))
    } else if o1 == 0x8 && o4 == 0x1 {
        (VmState { gp: pre.gp.update(x, vx | vy), ..s }, Ok(()))
    } else if o1 == 0x8 && o4 == 0x2 {
        (VmState { gp: pre.gp.update(x, vx & vy), ..s }, Ok(()))
    } else if o1 == 0x8 && o4 == 0x3 {
        (VmState { gp: pre.gp.update(x, vx ^ vy), ..s }, Ok(()))
    } else if o1 == 0x8 && o4 == 0x4 {
        let sum = vx + vy;
        let gp1 = pre.gp.update(15, if sum > 255 { 1u8 } else { 0u8 });
        (VmState { gp: gp1.update(x, (sum % 256) as u8), ..s }, Ok(()))
    } else if o1 == 0x8 && o4 == 0x5 {
        let gp1 = pre.gp.update(15, if vx > vy { 1u8 } else { 0u8 });
        (VmState { gp: gp1.update(x, ((gp1[x] - gp1[y]) % 256) as u8), ..s }, Ok(()))
    } else if o1 == 0x8 && o4 == 0x6 {
        let gp1 = pre.gp.update(15, vx % 2);
        (VmState { gp: gp1.update(x, gp1[x] / 2), ..s }, Ok(()))
    } else if o1 == 0x8 && o4 == 0x7 {
        let gp1 = pre.gp.update(15, if vx < vy { 1u8 } else { 0u8 });
        (VmState { gp: gp1.update(x, ((gp1[y] - gp1[x]) % 256) as u8), ..s }, Ok(()))
    } else if o1 == 0x8 && o4 == 0xE {
        let gp1 = pre.gp.update(15, if vx >= 128 { 1u8 } else { 0u8 });
        (VmState { gp: gp1.update(x, ((gp1[x] * 2) % 256) as u8), ..s }, Ok(()))
    } else if o1 == 0x9 && o4 == 0x0 {
        (VmState { pc: if vx != vy { pc2 + 2 } else { pc2 }, ..s }, Ok(()))
    } else if o1 == 0xA {
        (VmState { i: nnn, ..s }, Ok(()))
    } else if o1 == 0xB {
        (VmState { pc: nnn + pre.gp[0], ..s }, Ok(()))
    } else if o1 == 0xC {
        (VmState { gp: pre.gp.update(x, rand & kk), ..s }, Ok(()))
    } else if o1 == 0xD {
        if n > 0 && pre.i + n > 4096 {
            (pre, Err(Chip8Error::MemoryOutOfBounds { address: oob_address(pre.i) }))
        } else {
            let gpz = pre.gp.update(15, 0u8);
            let sprite = Seq::new(n as nat, |m: int| pre.mem[pre.i + m]);
            let hit = draw_collides(pre.gfx, gpz[x] as int, gpz[y] as int, sprite);
            (
                VmState {
                    gp: gpz.update(15, if hit { 1u8 } else { 0u8 }),
                    gfx: draw_gfx(pre.gfx, gpz[x] as int, gpz[y] as int, sprite),
                    ..s
                },
                Ok(()),
            )
        }
    } else if o1 == 0xE && o3 == 0x9 && o4 == 0xE {
        (VmState { pc: if pre.keys[x] { pc2 + 2 } else { pc2 }, ..s }, Ok(()))
    } else if o1 == 0xE && o3 == 0xA && o4 == 0x1 {
        (VmState { pc: if !pre.keys[x] { pc2 + 2 } else { pc2 }, ..s }, Ok(()))
    } else if o1 == 0xF && o3 == 0x0 && o4 == 0x7 {
        (VmState { gp: pre.gp.update(x, pre.dt), ..s }, Ok(()))
    } else if o1 == 0xF && o3 == 0x0 && o4 == 0xA {
        let hk = highest_down(pre.keys);
        if hk < 0 {
            (VmState { pc: pre.pc, ..s }, Ok(()))
        } else {
            (VmState { gp: pre.gp.update(x, hk as u8), ..s }, Ok(()))
        }
    } else if o1 == 0xF && o3 == 0x1 && o4 == 0x5 {
        (VmState { dt: vx, ..s }, Ok(()))
    } else if o1 == 0xF && o3 == 0x1 && o4 == 0x8 {
        (VmState { st: vx, ..s }, Ok(()))
    } else if o1 == 0xF && o3 == 0x1 && o4 == 0xE {
        (VmState { i: (pre.i + vx) % 65536, ..s }, Ok(()))
    } else if o1 == 0xF && o3 == 0x2 && o4 == 0x9 {
        (VmState { i: vx * 5, ..s }, Ok(()))
    } else if o1 == 0xF && o3 == 0x3 && o4 == 0x3 {
        if pre.i + 2 >= 4096 {
            (pre, Err(Chip8Error::MemoryOutOfBounds { address: oob_address(pre.i) }))
        } else {
            let m1 = pre.mem.update(pre.i, vx / 100);
            let m2 = m1.update(pre.i + 1, (vx / 10) % 10);
            (VmState { mem: m2.update(pre.i + 2, vx % 10), ..s }, Ok(()))
        }
    } else if o1 == 0xF && o3 == 0x5 && o4 == 0x5 {
        if pre.i + x > 4095 {
            (pre, Err(Chip8Error::MemoryOutOfBounds { address: oob_address(pre.i) }))
        } else {
            (VmState { mem: regs_stored(pre.mem, pre.i, pre.gp, x), ..s }, Ok(()))
        }
    } else if o1 == 0xF && o3 == 0x6 && o4 == 0x5 {
        if pre.i + x > 4095 {
            (pre, Err(Chip8Error::MemoryOutOfBounds { address: oob_address(pre.i) }))
        } else {
            (VmState { gp: regs_loaded(pre.gp, pre.mem, pre.i, x), ..s }, Ok(()))
        }
    } else {
        (pre, Err(Chip8Error::InvalidOpcode { operand: op as u16 }))
    }
}

/// One whole fetch/decode/execute step: fetch the two bytes at the program
/// counter (an error if either lies outside memory), advance the counter,
/// and execute. On an error the machine is returned unchanged.
pub open spec fn step_spec(pre: VmState, rand: u8) -> (VmState, Result<(), Chip8Error>) {
    if pre.pc + 1 >= 4096 {
        (pre, Err(Chip8Error::MemoryOutOfBounds { address: oob_address(pre.pc) }))
    } else {
        dispatch_spec(pre, fetched_op(pre), rand)
    }
}

/// Whether the next step consults the random source (a Cxkk opcode).
pub open spec fn step_uses_rand(pre: VmState) -> bool {
    pre.pc + 1 < 4096 && fetched_op(pre) / 4096 == 0xC
}

/// Registers, program counter, index register, call stack, the two
/// countdown timers, and the last fetched instruction word.
#[derive(Debug)]
pub struct CPU {
    pub gp: Vec<u8>,
    pub pc: u16,
    pub i: u16,
    pub stack: Vec<u16>,
    pub sp: u16,
    pub dt: u8,
    pub st: u8,
    pub operand: u16,
}

/// The machine state that a CPU and a bus together make up.
pub open spec fn vm_view(cpu: CPU, bus: Bus) -> VmState {
    VmState {
        gp: cpu.gp@,
        pc: cpu.pc as int,
        i: cpu.i as int,
        stack: cpu.stack@,
        sp: cpu.sp as int,
        dt: cpu.dt,
        st: cpu.st,
        operand: cpu.operand,
        mem: bus.ram@,
        gfx: bus.display@,
        keys: bus.keypad@,
    }
}

/// Relies on rand::random: draws one byte from the process-wide generator,
/// uniformly distributed over the full 0-255 range.
#[verifier::external_body]
fn random_byte() -> u8 {
    rand::random::<u8>()
}

impl CPU {
    pub open spec fn wf(&self) -> bool {
        &&& self.gp@.len() == 16
        &&& self.stack@.len() == 16
        &&& self.sp <= 15
    }

    /// A freshly reset CPU: everything zeroed, the program counter at the
    /// start of program space.
    pub fn new() -> (cpu: CPU)
        ensures
            cpu.wf(),
            cpu.pc == 0x200,
            cpu.i == 0,
            cpu.sp == 0,
            cpu.dt == 0,
            cpu.st == 0,
            cpu.operand == 0,
            forall|k: int| 0 <= k < 16 ==> cpu.gp@[k] == 0,
            forall|k: int| 0 <= k < 16 ==> cpu.stack@[k] == 0,
    {
        let mut gp: Vec<u8> = Vec::new();
        let mut stack: Vec<u16> = Vec::new();
        let mut k: usize = 0;
        while k < 16
            invariant
                gp@.len() == k,
                stack@.len() == k,
                k <= 16,
                forall|m: int| 0 <= m < k ==> gp@[m] == 0,
                forall|m: int| 0 <= m < k ==> stack@[m] == 0,
            decreases 16 - k,
        {
            gp.push(0);
            stack.push(0);
            k = k + 1;
        }
        CPU { gp, pc: PROGRAM_START, i: 0, stack, sp: 0, dt: 0, st: 0, operand: 0 }
    }

    /// One external timer tick: each timer counts down toward zero and
    /// stops there. Returns whether the sound timer was active, which asks
    /// the caller to play the beep.
    pub fn update_timers(&mut self) -> (beep: bool)
        ensures
            final(self).dt == if old(self).dt > 0 { (old(self).dt - 1) as u8 } else { 0u8 },
            final(self).st == if old(self).st > 0 { (old(self).st - 1) as u8 } else { 0u8 },
            beep == (old(self).st > 0),
            final(self).gp == old(self).gp,
            final(self).pc == old(self).pc,
            final(self).i == old(self).i,
            final(self).stack == old(self).stack,
            final(self).sp == old(self).sp,
            final(self).operand == old(self).operand,
    {
        if self.dt > 0 {
            self.dt = self.dt - 1;
        }
        let beep = self.st > 0;
        if self.st > 0 {
            self.st = self.st - 1;
        }
        beep
    }

    /// Execute exactly one instruction, with `rand` standing in for the
    /// byte the random source would yield: deterministic in all its inputs.
    #[verifier::loop_isolation(false)]
    #[verifier::rlimit(100)]
    pub fn step_with_rand(&mut self, bus: &mut Bus, rand: u8) -> (r: Result<(), Chip8Error>)
        requires
            old(self).wf(),
            old(bus).wf(),
        ensures
            final(self).wf(),
            final(bus).wf(),
            vm_view(*final(self), *final(bus)) == step_spec(
                vm_view(*old(self), *old(bus)),
                rand,
            ).0,
            r == step_spec(vm_view(*old(self), *old(bus)), rand).1,
    {
        let ghost pre = vm_view(*old(self), *old(bus));
        if self.pc >= 4095 {
            let address: u16 = if self.pc >= 4096 {
                self.pc
            } else {
                4096
            };
            return Err(Chip8Error::MemoryOutOfBounds { address });
        }
        let hi = bus.ram.read_byte_from_ram(self.pc);
        let lo = bus.ram.read_byte_from_ram(self.pc + 1);
        let op: u16 = (hi as u16) * 256 + (lo as u16);
        proof {
            assert(op == fetched_op(pre));
        }
        let nnn: u16 = op % 4096;
        let kk: u8 = (op % 256) as u8;
        let n: u16 = op % 16;
        let x: usize = ((op / 256) % 16) as usize;
        let y: usize = ((op / 16) % 16) as usize;
        let o1: u16 = op / 4096;
        let o3: u16 = (op / 16) % 16;
        let o4: u16 = op % 16;
        let op_prev: u16 = self.operand;
        let pc0: u16 = self.pc;
        let pc2: u16 = self.pc + 2;
        self.operand = op;
        self.pc = pc2;
        if op == 0x00E0 {
            bus.display.cls();
        } else if op == 0x00EE {
            if self.sp == 0 {
                self.pc = pc0;
                self.operand = op_prev;
                return Err(Chip8Error::StackUnderflow);
            }
            self.sp = self.sp - 1;
            self.pc = self.stack[self.sp as usize];
        } else if o1 == 0x1 {
            self.pc = nnn;
        } else if o1 == 0x2 {
            if self.sp >= 15 {
                self.pc = pc0;
                self.operand = op_prev;
                return Err(Chip8Error::StackOverflow);
            }
            self.stack.set(self.sp as usize, pc2);
            self.sp = self.sp + 1;
            self.pc = nnn;
        } else if o1 == 0x3 {
            if self.gp[x] == kk {
                self.pc = pc2 + 2;
            }
        } else if o1 == 0x4 {
            if self.gp[x] != kk {
                self.pc = pc2 + 2;
            }
        } else if o1 == 0x5 && o4 == 0x0 {
            if self.gp[x] == self.gp[y] {
                self.pc = pc2 + 2;
            }
        } else if o1 == 0x6 {
            self.gp.set(x, kk);
        } else if o1 == 0x7 {
            let v: u8 = ((self.gp[x] as u16 + kk as u16) % 256) as u8;
            self.gp.set(x, v);
        } else if o1 == 0x8 && o4 == 0x0 {
            let v: u8 = self.gp[y];
            self.gp.set(x, v);
        } else if o1 == 0x8 && o4 == 0x1 {
            let v: u8 = self.gp[x] | self.gp[y];
            self.gp.set(x, v);
        } else if o1 == 0x8 && o4 == 0x2 {
            let v: u8 = self.gp[x] & self.gp[y];
            self.gp.set(x, v);
        } else if o1 == 0x8 && o4 == 0x3 {
            let v: u8 = self.gp[x] ^ self.gp[y];
            self.gp.set(x, v);
        } else if o1 == 0x8 && o4 == 0x4 {
            let sum: u16 = self.gp[x] as u16 + self.gp[y] as u16;
            self.gp.set(15, if sum > 255 { 1 } else { 0 });
            self.gp.set(x, (sum % 256) as u8);
        } else if o1 == 0x8 && o4 == 0x5 {
            let flag: u8 = if self.gp[x] > self.gp[y] { 1 } else { 0 };
            self.gp.set(15, flag);
            let a: u8 = self.gp[x];
            let b: u8 = self.gp[y];
            let v: u8 = ((a as u16 + 256 - b as u16) % 256) as u8;
            proof {
                lemma_mod_add_multiples_vanish(a - b, 256);
            }
            self.gp.set(x, v);
        } else if o1 == 0x8 && o4 == 0x6 {
            let flag: u8 = self.gp[x] % 2;
            self.gp.set(15, flag);
            let a: u8 = self.gp[x];
            self.gp.set(x, a / 2);
        } else if o1 == 0x8 && o4 == 0x7 {
            let flag: u8 = if self.gp[x] < self.gp[y] { 1 } else { 0 };
            self.gp.set(15, flag);
            let a: u8 = self.gp[x];
            let b: u8 = self.gp[y];
            let v: u8 = ((b as u16 + 256 - a as u16) % 256) as u8;
            proof {
                lemma_mod_add_multiples_vanish(b - a, 256);
            }
            self.gp.set(x, v);
        } else if o1 == 0x8 && o4 == 0xE {
            let flag: u8 = if self.gp[x] >= 128 { 1 } else { 0 };
            self.gp.set(15, flag);
            let a: u8 = self.gp[x];
            self.gp.set(x, ((a as u16 * 2) % 256) as u8);
        } else if o1 == 0x9 && o4 == 0x0 {
            if self.gp[x] != self.gp[y] {
                self.pc = pc2 + 2;
            }
        } else if o1 == 0xA {
            self.i = nnn;
        } else if o1 == 0xB {
            self.pc = nnn + self.gp[0] as u16;
        } else if o1 == 0xC {
            self.gp.set(x, rand & kk);
        } else if o1 == 0xD {
            if n > 0 && self.i > 4096 - n {
                self.pc = pc0;
                self.operand = op_prev;
                let address: u16 = if self.i >= 4096 {
                    self.i
                } else {
                    4096
                };
                return Err(Chip8Error::MemoryOutOfBounds { address });
            }
            self.gp.set(15, 0);
            let mut sprite: Vec<u8> = Vec::new();
            let mut k: u16 = 0;
            while k < n
                invariant
                    k <= n,
                    sprite@.len() == k,
                    bus.ram.wf(),
                    bus.ram@ == pre.mem,
                    self.i as int == pre.i,
                    n > 0 ==> pre.i + n <= 4096,
                    forall|m: int| 0 <= m < k ==> sprite@[m] == pre.mem[pre.i + m],
                decreases n - k,
            {
                sprite.push(bus.ram.read_byte_from_ram(self.i + k));
                k = k + 1;
            }
            proof {
                assert(sprite@ =~= Seq::new(n as nat, |m: int| pre.mem[pre.i + m]));
            }
            let dx = self.gp[x];
            let dy = self.gp[y];
            let hit = bus.display.draw(dx as usize, dy as usize, &sprite);
            self.gp.set(15, if hit { 1 } else { 0 });
        } else if o1 == 0xE && o3 == 0x9 && o4 == 0xE {
            if bus.keypad.is_key_down(x) {
                self.pc = pc2 + 2;
            }
        } else if o1 == 0xE && o3 == 0xA && o4 == 0x1 {
            if !bus.keypad.is_key_down(x) {
                self.pc = pc2 + 2;
            }
        } else if o1 == 0xF && o3 == 0x0 && o4 == 0x7 {
            let v: u8 = self.dt;
            self.gp.set(x, v);
        } else if o1 == 0xF && o3 == 0x0 && o4 == 0xA {
            match bus.keypad.pressed_key() {
                Some(key) => {
                    self.gp.set(x, key);
                },
                None => {
                    self.pc = pc0;
                },
            }
        } else if o1 == 0xF && o3 == 0x1 && o4 == 0x5 {
            self.dt = self.gp[x];
        } else if o1 == 0xF && o3 == 0x1 && o4 == 0x8 {
            self.st = self.gp[x];
        } else if o1 == 0xF && o3 == 0x1 && o4 == 0xE {
            self.i = ((self.i as u32 + self.gp[x] as u32) % 65536) as u16;
        } else if o1 == 0xF && o3 == 0x2 && o4 == 0x9 {
            self.i = (self.gp[x] as u16) * 5;
        } else if o1 == 0xF && o3 == 0x3 && o4 == 0x3 {
            if self.i > 4093 {
                self.pc = pc0;
                self.operand = op_prev;
                let address: u16 = if self.i >= 4096 {
                    self.i
                } else {
                    4096
                };
                return Err(Chip8Error::MemoryOutOfBounds { address });
            }
            let v: u8 = self.gp[x];
            bus.ram.write_byte_to_ram(self.i, v / 100);
            bus.ram.write_byte_to_ram(self.i + 1, (v / 10) % 10);
            bus.ram.write_byte_to_ram(self.i + 2, v % 10);
        } else if o1 == 0xF && o3 == 0x5 && o4 == 0x5 {
            if self.i > 4095 - (x as u16) {
                self.pc = pc0;
                self.operand = op_prev;
                let address: u16 = if self.i >= 4096 {
                    self.i
                } else {
                    4096
                };
                return Err(Chip8Error::MemoryOutOfBounds { address });
            }
            let mut k: usize = 0;
            while k <= x
                invariant
                    k <= x + 1,
                    x < 16,
                    bus.ram.wf(),
                    bus.ram@ == regs_stored(pre.mem, pre.i as int, pre.gp, k - 1),
                    bus.display.wf(),
                    bus.display@ == pre.gfx,
                    bus.keypad.wf(),
                    bus.keypad@ == pre.keys,
                    self.i as int == pre.i,
                    pre.i + x <= 4095,
                    self.gp@ == pre.gp,
                decreases x + 1 - k,
            {
                let v: u8 = self.gp[k];
                bus.ram.write_byte_to_ram(self.i + k as u16, v);
                proof {
                    assert(bus.ram@ =~= regs_stored(pre.mem, pre.i as int, pre.gp, k as int));
                }
                k = k + 1;
            }
            proof {
                assert(vm_view(*self, *bus) =~= step_spec(pre, rand).0);
            }
        } else if o1 == 0xF && o3 == 0x6 && o4 == 0x5 {
            if self.i > 4095 - (x as u16) {
                self.pc = pc0;
                self.operand = op_prev;
                let address: u16 = if self.i >= 4096 {
                    self.i
                } else {
                    4096
                };
                return Err(Chip8Error::MemoryOutOfBounds { address });
            }
            let mut k: usize = 0;
            while k <= x
                invariant
                    k <= x + 1,
                    x < 16,
                    self.gp@.len() == 16,
                    self.gp@ == regs_loaded(pre.gp, pre.mem, pre.i as int, k - 1),
                    self.i as int == pre.i,
                    pre.i + x <= 4095,
                    self.pc == pc2,
                    self.operand == op,
                    self.sp as int == pre.sp,
                    self.dt == pre.dt,
                    self.st == pre.st,
                    self.stack@ == pre.stack,
                decreases x + 1 - k,
            {
                let v: u8 = bus.ram.read_byte_from_ram(self.i + k as u16);
                self.gp.set(k, v);
                proof {
                    assert(self.gp@ =~= regs_loaded(pre.gp, pre.mem, pre.i as int, k as int));
                }
                k = k + 1;
            }
        } else {
            self.pc = pc0;
            self.operand = op_prev;
            return Err(Chip8Error::InvalidOpcode { operand: op });
        }
        proof {
            assert(vm_view(*self, *bus) =~= step_spec(pre, rand).0);
        }
        Ok(())
    }

    /// Fetch, decode and execute one instruction, drawing on the
    /// process-wide random source for the Cxkk opcode. Every opcode other
    /// than Cxkk steps deterministically; Cxkk steps as some byte dictates.
    pub fn process_operation(&mut self, bus: &mut Bus) -> (r: Result<(), Chip8Error>)
        requires
            old(self).wf(),
            old(bus).wf(),
        ensures
            final(self).wf(),
            final(bus).wf(),
            exists|b: u8|
                vm_view(*final(self), *final(bus)) == #[trigger] step_spec(
                    vm_view(*old(self), *old(bus)),
                    b,
                ).0 && r == step_spec(vm_view(*old(self), *old(bus)), b).1,
            !step_uses_rand(vm_view(*old(self), *old(bus))) ==> vm_view(
                *final(self),
                *final(bus),
            ) == step_spec(vm_view(*old(self), *old(bus)), 0).0 && r == step_spec(
                vm_view(*old(self), *old(bus)),
                0,
            ).1,
    {
        let ghost pre = vm_view(*old(self), *old(bus));
        let rand = random_byte();
        let r = self.step_with_rand(bus, rand);
        proof {
            assert(vm_view(*self, *bus) == step_spec(pre, rand).0 && r == step_spec(
                pre,
                rand,
            ).1);
            if !step_uses_rand(pre) {
                lemma_step_rand_irrelevant(pre, rand);
            }
        }
        r
    }
}

/// A subroutine call followed by a return comes back: executing 2nnn
/// jumps to nnn with the address after the call pushed on the stack, and
/// executing the 00EE found there pops that address back into the program
/// counter, leaving registers, memory and screen untouched.
pub proof fn lemma_call_return_roundtrip(pre: VmState)
    requires
        wf_state(pre),
        pre.pc + 1 < 4096,
        fetched_op(pre) / 4096 == 0x2,
        pre.sp < 15,
        fetched_op(pre) % 4096 + 1 < 4096,
        pre.mem[fetched_op(pre) % 4096] == 0x00,
        pre.mem[fetched_op(pre) % 4096 + 1] == 0xEE,
    ensures
        ({
            let nnn = fetched_op(pre) % 4096;
            let s1 = step_spec(pre, 0).0;
            let s2 = step_spec(s1, 0).0;
            &&& step_spec(pre, 0).1 == Ok::<(), Chip8Error>(())
            &&& s1.pc == nnn
            &&& s1.sp == pre.sp + 1
            &&& s1.stack[pre.sp] == pre.pc + 2
            &&& step_spec(s1, 0).1 == Ok::<(), Chip8Error>(())
            &&& s2.pc == pre.pc + 2
            &&& s2.sp == pre.sp
            &&& s2.gp == pre.gp
            &&& s2.mem == pre.mem
            &&& s2.gfx == pre.gfx
        }),
{
    let op = fetched_op(pre);
    let nnn = op % 4096;
    let s1 = step_spec(pre, 0).0;
    assert(fetched_op(s1) == 0x00EE);
}

/// The key-wait opcode Fx0A spins: with no key down a step leaves the
/// program counter where it was (the instruction will fetch again); once
/// some key is down, Vx receives its index and the counter moves past the
/// instruction. Nothing else of the machine changes either way.
pub proof fn lemma_key_wait_spin(pre: VmState)
    requires
        wf_state(pre),
        pre.pc + 1 < 4096,
        fetched_op(pre) / 4096 == 0xF,
        (fetched_op(pre) / 16) % 16 == 0x0,
        fetched_op(pre) % 16 == 0xA,
    ensures
        step_spec(pre, 0).1 == Ok::<(), Chip8Error>(()),
        highest_down(pre.keys) == -1 ==> step_spec(pre, 0).0 == (VmState {
            operand: fetched_op(pre) as u16,
            ..pre
        }),
        highest_down(pre.keys) >= 0 ==> step_spec(pre, 0).0 == (VmState {
            pc: pre.pc + 2,
            gp: pre.gp.update((fetched_op(pre) / 256) % 16, highest_down(pre.keys) as u8),
            operand: fetched_op(pre) as u16,
            ..pre
        }),
{
    let op = fetched_op(pre);
    crate::keypad::lemma_highest_down_range(pre.keys);
    if highest_down(pre.keys) == -1 {
        assert(step_spec(pre, 0).0 =~= (VmState { operand: op as u16, ..pre }));
    } else {
        assert(step_spec(pre, 0).0 =~= (VmState {
            pc: pre.pc + 2,
            gp: pre.gp.update((op / 256) % 16, highest_down(pre.keys) as u8),
            operand: op as u16,
            ..pre
        }));
    }
}

/// A step that does not consult the random source lands in the same state
/// whatever byte the source would have yielded.
pub proof fn lemma_step_rand_irrelevant(pre: VmState, rand: u8)
    requires
        !step_uses_rand(pre),
    ensures
        step_spec(pre, rand) == step_spec(pre, 0),
{
    if pre.pc + 1 < 4096 {
        let op = fetched_op(pre);
        assert(dispatch_spec(pre, op, rand) == dispatch_spec(pre, op, 0));
    }
}

} // verus!
