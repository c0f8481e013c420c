use vstd::prelude::*;

verus! {

/// Counts ticks of a periodic time source until the count is drained.
pub struct ElapsedTime {
    ticks: u32,
}

impl View for ElapsedTime {
    type V = u32;

    closed spec fn view(&self) -> u32 {
        self.ticks
    }
}

impl ElapsedTime {
    /// A count of zero.
    pub fn new() -> (r: Self)
        ensures
            r@ == 0,
    {
        ElapsedTime { ticks: 0 }
    }

    /// Counts one tick; the count stays at `u32::MAX` once it is there.
    pub fn tick(&mut self)
        ensures
            final(self)@ == if old(self)@ < u32::MAX {
                (old(self)@ + 1) as u32
            } else {
                old(self)@
            },
    {
        self.ticks = self.ticks.saturating_add(1);
    }

    /// Returns the ticks counted since the last drain and starts again from
    /// zero.
    pub fn drain(&mut self) -> (r: u32)
        ensures
            r == old(self)@,
            final(self)@ == 0,
    {
        let r = self.ticks;
        self.ticks = 0;
        r
    }
}

} // verus!
