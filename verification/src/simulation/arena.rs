//! The arena: a circular array of instructions, indexed modulo its size.

use crate::address::{wrap_add, wrap_mul, wrap_sub, Address};
use crate::redcode::{default_instruction, Field, Instruction};
use vstd::prelude::*;

verus! {

/// The instruction with both displacements reduced modulo `m`.
pub open spec fn normalized(instr: Instruction, m: int) -> Instruction {
    Instruction {
        op: instr.op,
        a: Field { value: (instr.a.value as int % m) as u32, mode: instr.a.mode },
        b: Field { value: (instr.b.value as int % m) as u32, mode: instr.b.mode },
    }
}

/// Whether both displacements of the instruction lie in `[0, m)`.
pub open spec fn in_range(instr: Instruction, m: int) -> bool {
    instr.a.value < m && instr.b.value < m
}

/// Whether the arena has a size that a cell value can count, and both
/// displacements of every cell lie within that size.
pub open spec fn arena_valid(arena: Seq<Instruction>) -> bool {
    &&& 0 < arena.len() <= u32::MAX
    &&& forall|i: int| 0 <= i < arena.len() ==> in_range(#[trigger] arena[i], arena.len() as int)
}

/// An arena of `m` cells, each holding `DAT.F #0, #0`.
pub open spec fn cleared(m: nat) -> Seq<Instruction> {
    Seq::new(m, |i: int| default_instruction())
}

/// A fixed number of cells, at least one and no more than a cell value can
/// count. The view is the sequence of the cells.
#[derive(Debug)]
pub struct Arena {
    cells: Vec<Instruction>,
}

impl View for Arena {
    type V = Seq<Instruction>;

    closed spec fn view(&self) -> Seq<Instruction> {
        self.cells@
    }
}

impl Clone for Arena {
    /// An arena with the same cells.
    fn clone(&self) -> (r: Self)
        ensures
            r@ == self@,
    {
        proof {
            use_type_invariant(self);
        }
        let cells = self.cells.clone();
        assert(cells@ =~= self.cells@);
        Arena { cells }
    }
}

impl Arena {
    #[verifier::type_invariant]
    spec fn sized(self) -> bool {
        0 < self.cells@.len() <= u32::MAX
    }

    /// An arena of `size` cells, each holding `DAT.F #0, #0`.
    pub fn new(size: u32) -> (r: Self)
        requires
            size > 0,
        ensures
            r@ == cleared(size as nat),
    {
        let mut cells: Vec<Instruction> = Vec::new();
        let mut i: u32 = 0;
        while i < size
            invariant
                i <= size,
                cells@ == cleared(i as nat),
            decreases size - i,
        {
            cells.push(Instruction::default());
            i = i + 1;
            assert(cells@ =~= cleared(i as nat));
        }
        Arena { cells }
    }

    /// The number of cells.
    pub fn size(&self) -> (m: u32)
        ensures
            m == self@.len(),
            m > 0,
    {
        proof {
            use_type_invariant(self);
        }
        self.cells.len() as u32
    }

    /// The cells, in order.
    pub fn cells(&self) -> (r: &[Instruction])
        ensures
            r@ == self@,
    {
        self.cells.as_slice()
    }

    /// A copy of the cell at `addr mod M`.
    pub fn fetch(&self, addr: u32) -> (r: Instruction)
        ensures
            r == self@[addr as int % self@.len() as int],
            addr < self@.len() ==> r == self@[addr as int],
    {
        let m: u32 = self.size();
        proof {
            if addr < m {
                vstd::arithmetic::div_mod::lemma_small_mod(addr as nat, m as nat);
            }
        }
        self.cells[(addr % m) as usize]
    }

    /// Overwrites the cell at `addr mod M`.
    pub fn store(&mut self, addr: u32, instr: Instruction)
        ensures
            final(self)@ == old(self)@.update(addr as int % old(self)@.len() as int, instr),
            addr < old(self)@.len() ==> final(self)@ == old(self)@.update(addr as int, instr),
    {
        let m: u32 = self.size();
        proof {
            if addr < m {
                vstd::arithmetic::div_mod::lemma_small_mod(addr as nat, m as nat);
            }
        }
        self.cells[(addr % m) as usize] = instr;
    }

    /// `(base + disp) mod M`.
    pub fn add(&self, base: u32, disp: u32) -> (r: u32)
        ensures
            r == wrap_add(base as int, disp as int, self@.len() as int),
            r < self@.len(),
    {
        let m: u32 = self.size();
        proof {
            vstd::arithmetic::div_mod::lemma_add_mod_noop(base as int, disp as int, m as int);
            vstd::arithmetic::div_mod::lemma_add_mod_noop_right(
                base as int % m as int,
                disp as int,
                m as int,
            );
        }
        Address::new(base, m).add(disp).value()
    }

    /// `(base + M - (disp mod M)) mod M`.
    pub fn sub(&self, base: u32, disp: u32) -> (r: u32)
        ensures
            r == wrap_sub(base as int, disp as int, self@.len() as int),
            r < self@.len(),
    {
        let m: u32 = self.size();
        proof {
            let back = m as int - (disp as int % m as int);
            vstd::arithmetic::div_mod::lemma_add_mod_noop(base as int, back, m as int);
            vstd::arithmetic::div_mod::lemma_add_mod_noop_right(base as int % m as int, back, m as int);
        }
        Address::new(base, m).sub(disp).value()
    }

    /// `(base * factor) mod M`.
    pub fn mul(&self, base: u32, factor: u32) -> (r: u32)
        ensures
            r == wrap_mul(base as int, factor as int, self@.len() as int),
            r < self@.len(),
    {
        let m: u32 = self.size();
        proof {
            vstd::arithmetic::div_mod::lemma_mul_mod_noop_left(base as int, factor as int, m as int);
        }
        Address::new(base, m).mul(factor).value()
    }

    /// The instruction with both displacements reduced modulo `M`.
    pub fn normalize(&self, instr: Instruction) -> (r: Instruction)
        ensures
            r == normalized(instr, self@.len() as int),
            in_range(r, self@.len() as int),
    {
        let m: u32 = self.size();
        Instruction {
            op: instr.op,
            a: Field { value: instr.a.value % m, mode: instr.a.mode },
            b: Field { value: instr.b.value % m, mode: instr.b.mode },
        }
    }

    /// Fills every cell with `DAT.F #0, #0`.
    pub fn clear(&mut self)
        ensures
            final(self)@ == cleared(old(self)@.len()),
    {
        let m: u32 = self.size();
        let mut i: u32 = 0;
        while i < m
            invariant
                i <= m,
                m == self@.len(),
                self@.len() == old(self)@.len(),
                forall|k: int| 0 <= k < i ==> self@[k] == default_instruction(),
            decreases m - i,
        {
            self.cells[i as usize] = Instruction::default();
            i = i + 1;
        }
        assert(self@ =~= cleared(old(self)@.len()));
    }
}

} // verus!
