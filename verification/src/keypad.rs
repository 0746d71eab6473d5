use vstd::prelude::*;

verus! {

/// Index of the highest key in `keys[0..n]` that is currently down, or -1 if
/// none is.
pub open spec fn highest_down_below(keys: Seq<bool>, n: int) -> int
    decreases n,
{
    if n <= 0 {
        -1
    } else if keys[n - 1] {
        n - 1
    } else {
        highest_down_below(keys, n - 1)
    }
}

/// Index of the highest key that is currently down, or -1 if none is.
pub open spec fn highest_down(keys: Seq<bool>) -> int {
    highest_down_below(keys, 16)
}

proof fn lemma_highest_down_below_range(keys: Seq<bool>, n: int)
    ensures
        highest_down_below(keys, n) == -1 || 0 <= highest_down_below(keys, n) < n,
    decreases n,
{
    if n > 0 {
        lemma_highest_down_below_range(keys, n - 1);
    }
}

/// The highest-down index is a key index, or -1 when no key is down.
pub proof fn lemma_highest_down_range(keys: Seq<bool>)
    ensures
        highest_down(keys) == -1 || 0 <= highest_down(keys) < 16,
{
    lemma_highest_down_below_range(keys, 16);
}

/// The 16-key hexadecimal input pad, indexed by hex digit 0x0-0xF.
pub struct Keypad {
    keys: Vec<bool>,
}

impl View for Keypad {
    type V = Seq<bool>;

    closed spec fn view(&self) -> Seq<bool> {
        self.keys@
    }
}

impl Keypad {
    pub open spec fn wf(&self) -> bool {
        self@.len() == 16
    }

    /// A pad with every key up.
    pub fn new() -> (kp: Keypad)
        ensures
            kp.wf(),
            forall|k: int| 0 <= k < 16 ==> !kp@[k],
    {
        let mut keys: Vec<bool> = Vec::new();
        let mut i: usize = 0;
        while i < 16
            invariant
                keys@.len() == i,
                i <= 16,
                forall|k: int| 0 <= k < i ==> !keys@[k],
            decreases 16 - i,
        {
            keys.push(false);
            i = i + 1;
        }
        Keypad { keys }
    }

    /// Mark one key as held down.
    pub fn press_key(&mut self, key: u8)
        requires
            old(self).wf(),
            key < 16,
        ensures
            final(self).wf(),
            final(self)@ == old(self)@.update(key as int, true),
    {
        self.keys.set(key as usize, true);
    }

    /// Release every key: the pad keeps "at most one key held" semantics by
    /// clearing the whole pad on any key-up event.
    pub fn release_keys(&mut self)
        requires
            old(self).wf(),
        ensures
            final(self).wf(),
            forall|k: int| 0 <= k < 16 ==> !final(self)@[k],
    {
        let mut i: usize = 0;
        while i < 16
            invariant
                old(self).wf(),
                self@.len() == 16,
                i <= 16,
                forall|k: int| 0 <= k < i ==> !self@[k],
            decreases 16 - i,
        {
            self.keys.set(i, false);
            i = i + 1;
        }
    }

    /// Whether the given key is currently down.
    pub fn is_key_down(&self, key: usize) -> (r: bool)
        requires
            self.wf(),
            key < 16,
        ensures
            r == self@[key as int],
    {
        self.keys[key]
    }

    /// The highest key currently down, if any.
    pub fn pressed_key(&self) -> (r: Option<u8>)
        requires
            self.wf(),
        ensures
            match r {
                Some(k) => 0 <= k < 16 && highest_down(self@) == k as int,
                None => highest_down(self@) == -1,
            },
    {
        let mut i: usize = 16;
        while i > 0
            invariant
                self.wf(),
                i <= 16,
                highest_down(self@) == highest_down_below(self@, i as int),
            decreases i,
        {
            if self.keys[i - 1] {
                return Some((i - 1) as u8);
            }
            i = i - 1;
        }
        None
    }
}

} // verus!
