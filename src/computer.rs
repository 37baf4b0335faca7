//! The target machine's registers and memory.

use vstd::prelude::*;

verus! {

/// The state of the target machine: its registers and one hundred memory cells.
pub struct Computer {
    accumulator: u32,
    address_register: u8,
    instruction_register: u8,
    program_counter: u8,
    ram: [i32; 100],
}

impl Computer {
    /// The memory cells, in address order.
    pub closed spec fn memory_view(&self) -> Seq<i32> {
        self.ram@
    }

    /// The accumulator, address register, instruction register and program counter.
    pub closed spec fn registers(&self) -> (u32, u8, u8, u8) {
        (self.accumulator, self.address_register, self.instruction_register, self.program_counter)
    }

    /// A machine with every register and memory cell at zero.
    pub fn new() -> (r: Computer)
        ensures
            r.memory_view().len() == 100,
            forall|i: int| 0 <= i < 100 ==> r.memory_view()[i] == 0,
            r.registers() == (0u32, 0u8, 0u8, 0u8),
    {
        Computer {
            accumulator: 0,
            address_register: 0,
            instruction_register: 0,
            program_counter: 0,
            ram: [0i32; 100],
        }
    }

    /// Replaces the whole memory by `machine_code`; the registers keep their values.
    pub fn load_program(&mut self, machine_code: [i32; 100])
        ensures
            final(self).memory_view() == machine_code@,
            final(self).registers() == old(self).registers(),
    {
        self.ram = machine_code;
    }

    /// A copy of the memory.
    pub fn memory(&self) -> (r: [i32; 100])
        ensures
            r@ == self.memory_view(),
    {
        self.ram
    }
}

} // verus!
