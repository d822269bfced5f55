use vstd::prelude::*;

verus! {

/// Number of general registers.
pub const REGISTER_COUNT: usize = 16;

/// Index of the register that doubles as the carry, borrow and collision
/// flag.
pub const FLAG_REGISTER: u8 = 0xF;

/// The sixteen 8-bit general registers.
#[derive(PartialEq, Eq, Debug)]
pub struct Registers([u8; 16]);

impl Registers {
    /// The register values, by index.
    pub closed spec fn view(&self) -> Seq<u8> {
        self.0@
    }

    /// There are always sixteen registers.
    pub proof fn lemma_len(&self)
        ensures
            self@.len() == REGISTER_COUNT,
    {
    }

    /// Sixteen registers holding zero.
    pub fn new() -> (r: Self)
        ensures
            r@ == Seq::new(REGISTER_COUNT as nat, |i: int| 0u8),
    {
        Self([0; 16])
    }

    /// Reads register `idx`.
    pub fn index(&self, idx: u8) -> (r: &u8)
        requires
            idx < REGISTER_COUNT,
        ensures
            *r == self@[idx as int],
    {
        &self.0[idx as usize]
    }

    /// Hands out register `idx` for writing: the registers afterwards differ
    /// from the registers before in that one alone, which holds what was
    /// written.
    pub fn index_mut(&mut self, idx: u8) -> (r: &mut u8)
        requires
            idx < REGISTER_COUNT,
        ensures
            *r == old(self)@[idx as int],
            final(self)@ == old(self)@.update(idx as int, *final(r)),
    {
        &mut self.0[idx as usize]
    }
}

} // verus!
