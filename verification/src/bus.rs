use vstd::prelude::*;

use crate::display::Display;
use crate::keypad::Keypad;
use crate::memory::RAM;

verus! {

/// Shared access to memory, display and keypad, handed to the CPU on each
/// step.
pub struct Bus {
    pub ram: RAM,
    pub display: Display,
    pub keypad: Keypad,
}

impl Bus {
    pub open spec fn wf(&self) -> bool {
        &&& self.ram.wf()
        &&& self.display.wf()
        &&& self.keypad.wf()
    }

    /// A fresh bus: font-seeded memory, black screen, no key down.
    pub fn new() -> (bus: Bus)
        ensures
            bus.wf(),
            bus.ram@.subrange(0, 80) == crate::memory::font(),
            forall|a: int| 80 <= a < 4096 ==> bus.ram@[a] == 0,
            bus.display@ == crate::display::cleared_gfx(),
            forall|k: int| 0 <= k < 16 ==> !bus.keypad@[k],
    {
        Bus { ram: RAM::new(), display: Display::new(), keypad: Keypad::new() }
    }
}

} // verus!
