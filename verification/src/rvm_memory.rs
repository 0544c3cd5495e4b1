//! Machine state: the register file, the flags word, the remainder register
//! and the byte memory with its downward-growing stack.

use vstd::prelude::*;

verus! {

/// Size of the byte memory of a freshly created machine (64 MiB).
pub const MIN_MEMORY_SIZE: usize = 0x400_0000;

/// Number of slots in the register file.
pub const NUM_REGISTERS: usize = 17;

/// Address of the stack base: the stack occupies the bytes below it (2 MiB).
pub const MIN_STACK_SIZE: usize = 0x20_0000;

/// Slot of the register that holds the current top-of-stack address.
pub const REG_STACK_TOP: usize = 6;

/// Slot of the register that holds the fixed stack-base address.
pub const REG_STACK_BASE: usize = 7;

/// Slot of the register that mirrors the program's entry point.
pub const REG_ENTRY: usize = 8;

/// A tagged register value.
#[derive(Clone, Copy, Debug, PartialEq, Eq, Structural)]
pub enum RvmRegU {
    /// A plain 32-bit integer.
    I32(i32),
    /// A 32-bit integer that is an address into the byte memory.
    I32ADDR(i32),
    /// Two 16-bit halves.
    I16 { h: i16, l: i16 },
}

/// Why the machine refused an operation. A refused operation changes nothing.
#[derive(Clone, Copy, Debug, PartialEq, Eq, Structural)]
pub enum RvmFault {
    /// The opcode is not one of the instruction set.
    InvalidOpcode,
    /// A byte address lies outside the memory.
    MemoryFault,
    /// An operand names no slot of the register file, or the stack-top
    /// register holds no address when one is read from it.
    RegisterFault,
    /// Division by zero, or a quotient that does not fit in 32 bits.
    ArithmeticFault,
    /// An instruction index lies outside the program.
    InstructionFault,
}

/// The machine state as a mathematical value.
pub struct MachineState {
    pub flags: u32,
    pub remainder: i32,
    pub memory: Seq<u8>,
    pub registers: Seq<RvmRegU>,
}

pub struct RvmMem {
    pub flags: u32,
    pub remainder: i32,
    pub mem_space: Vec<u8>,
    pub registers: Vec<RvmRegU>,
}

impl View for RvmMem {
    type V = MachineState;

    open spec fn view(&self) -> MachineState {
        MachineState {
            flags: self.flags,
            remainder: self.remainder,
            memory: self.mem_space@,
            registers: self.registers@,
        }
    }
}

/// The four bytes of `v`, least significant first.
pub open spec fn le_bytes(v: i32) -> Seq<u8> {
    let u = v as u32;
    seq![
        (u & 0xff) as u8,
        ((u >> 8) & 0xff) as u8,
        ((u >> 16) & 0xff) as u8,
        ((u >> 24) & 0xff) as u8,
    ]
}

/// The 32-bit integer whose bytes, least significant first, are `b[0..4]`.
pub open spec fn le_value(b: Seq<u8>) -> i32 {
    ((b[0] as u32) | ((b[1] as u32) << 8) | ((b[2] as u32) << 16) | ((b[3] as u32) << 24)) as i32
}

/// Reading back the bytes of a value gives the value.
pub proof fn lemma_le_round_trip(v: i32)
    ensures
        le_bytes(v).len() == 4,
        le_value(le_bytes(v)) == v,
{
    let u = v as u32;
    let b0 = (u & 0xff) as u8;
    let b1 = ((u >> 8) & 0xff) as u8;
    let b2 = ((u >> 16) & 0xff) as u8;
    let b3 = ((u >> 24) & 0xff) as u8;
    assert(((b0 as u32) | ((b1 as u32) << 8) | ((b2 as u32) << 16) | ((b3 as u32) << 24)) == u)
        by (bit_vector)
        requires
            b0 == (u & 0xff) as u8,
            b1 == ((u >> 8) & 0xff) as u8,
            b2 == ((u >> 16) & 0xff) as u8,
            b3 == ((u >> 24) & 0xff) as u8,
    ;
    assert((v as u32) as i32 == v) by (bit_vector);
}

/// The address held by the stack-top register, if the register file has
/// that slot and the slot holds an address.
pub open spec fn stack_top(m: MachineState) -> Option<i32> {
    if m.registers.len() > REG_STACK_TOP {
        match m.registers[REG_STACK_TOP as int] {
            RvmRegU::I32ADDR(sp) => Some(sp),
            _ => None,
        }
    } else {
        None
    }
}

/// `m` after its stack-top register is set to the address `sp`.
pub open spec fn with_stack_top(m: MachineState, sp: i32) -> MachineState {
    MachineState { registers: m.registers.update(REG_STACK_TOP as int, RvmRegU::I32ADDR(sp)), ..m }
}

/// `memory` with the four bytes of `item` written at `at..at + 4`.
pub open spec fn store_le(memory: Seq<u8>, at: int, item: i32) -> Seq<u8> {
    memory.take(at) + le_bytes(item) + memory.skip(at + 4)
}

/// Pushing `item`: the stack top moves down by four bytes and the bytes of
/// `item` are stored there. Where the stack-top register holds no address
/// the push has no effect. With less than four bytes left below the stack
/// top, or a stack top outside the memory, the push is refused.
pub open spec fn push_spec(m: MachineState, item: i32) -> Result<MachineState, RvmFault> {
    if m.registers.len() <= REG_STACK_TOP {
        Err(RvmFault::RegisterFault)
    } else {
        match stack_top(m) {
            None => Ok(m),
            Some(sp) => if 4 <= sp <= m.memory.len() {
                Ok(
                    with_stack_top(
                        MachineState { memory: store_le(m.memory, sp - 4, item), ..m },
                        (sp - 4) as i32,
                    ),
                )
            } else {
                Err(RvmFault::MemoryFault)
            },
        }
    }
}

/// Popping: the value is read from the four bytes at the stack top, which
/// then moves up by four. Refused where the stack-top register holds no
/// address, or where those four bytes do not lie inside the memory.
pub open spec fn pop_spec(m: MachineState) -> Result<(i32, MachineState), RvmFault> {
    match stack_top(m) {
        None => Err(RvmFault::RegisterFault),
        Some(sp) => if 0 <= sp && sp + 4 <= m.memory.len() && sp + 4 <= i32::MAX {
            Ok((le_value(m.memory.subrange(sp as int, sp + 4)), with_stack_top(m, (sp + 4) as i32)))
        } else {
            Err(RvmFault::MemoryFault)
        },
    }
}

/// A push followed by a pop gives back the pushed value and the stack top,
/// and leaves the memory as the push left it.
pub proof fn lemma_push_then_pop(m: MachineState, item: i32)
    requires
        stack_top(m) is Some,
        push_spec(m, item) is Ok,
    ensures
        pop_spec(push_spec(m, item)->Ok_0) is Ok,
        pop_spec(push_spec(m, item)->Ok_0)->Ok_0.0 == item,
        pop_spec(push_spec(m, item)->Ok_0)->Ok_0.1.registers == m.registers,
        pop_spec(push_spec(m, item)->Ok_0)->Ok_0.1.memory == push_spec(m, item)->Ok_0.memory,
{
    let sp = stack_top(m)->Some_0;
    let pushed = push_spec(m, item)->Ok_0;
    lemma_le_round_trip(item);
    assert(stack_top(pushed) == Some((sp - 4) as i32));
    assert(pushed.memory.subrange(sp - 4, sp as int) =~= le_bytes(item));
    let popped = pop_spec(pushed)->Ok_0.1;
    assert(popped.registers =~= m.registers);
}

impl RvmMem {
    /// A machine with all registers plain zero, cleared flags and remainder,
    /// and a zeroed memory of `MIN_MEMORY_SIZE` bytes.
    pub fn new() -> (r: Self)
        ensures
            r@.flags == 0,
            r@.remainder == 0,
            r@.memory == Seq::new(MIN_MEMORY_SIZE as nat, |i: int| 0u8),
            r@.registers == Seq::new(NUM_REGISTERS as nat, |i: int| RvmRegU::I32(0)),
    {
        let r = RvmMem {
            flags: 0,
            remainder: 0,
            mem_space: vec![0u8; MIN_MEMORY_SIZE],
            registers: vec![RvmRegU::I32(0); NUM_REGISTERS],
        };
        assert(r@.memory =~= Seq::new(MIN_MEMORY_SIZE as nat, |i: int| 0u8));
        assert(r@.registers =~= Seq::new(NUM_REGISTERS as nat, |i: int| RvmRegU::I32(0)));
        r
    }

    /// Sets up an empty stack: the stack-base and stack-top registers both
    /// get the address `MIN_STACK_SIZE`.
    pub fn rvm_stack_create(&mut self)
        requires
            old(self)@.registers.len() > REG_STACK_BASE,
        ensures
            final(self)@ == (MachineState {
                registers: old(self)@.registers.update(
                    REG_STACK_BASE as int,
                    RvmRegU::I32ADDR(MIN_STACK_SIZE as i32),
                ).update(REG_STACK_TOP as int, RvmRegU::I32ADDR(MIN_STACK_SIZE as i32)),
                ..old(self)@
            }),
    {
        self.registers.set(REG_STACK_BASE, RvmRegU::I32ADDR(MIN_STACK_SIZE as i32));
        self.registers.set(REG_STACK_TOP, RvmRegU::I32ADDR(MIN_STACK_SIZE as i32));
    }

    /// Pushes `item` onto the stack as `push_spec` says; a refused push
    /// changes nothing.
    pub fn rvm_stack_push(&mut self, item: i32) -> (r: Result<(), RvmFault>)
        ensures
            match push_spec(old(self)@, item) {
                Ok(m) => r is Ok && final(self)@ == m,
                Err(f) => r == Err::<(), RvmFault>(f) && final(self)@ == old(self)@,
            },
    {
        if self.registers.len() <= REG_STACK_TOP {
            return Err(RvmFault::RegisterFault);
        }
        match self.registers[REG_STACK_TOP] {
            RvmRegU::I32ADDR(sp) => {
                if sp < 4 || sp as usize > self.mem_space.len() {
                    return Err(RvmFault::MemoryFault);
                }
                let at: usize = (sp - 4) as usize;
                let u: u32 = #[verifier::truncate]
                (item as u32);
                let b0: u8 = (u & 0xff) as u8;
                let b1: u8 = ((u >> 8) & 0xff) as u8;
                let b2: u8 = ((u >> 16) & 0xff) as u8;
                let b3: u8 = ((u >> 24) & 0xff) as u8;
                self.mem_space.set(at, b0);
                self.mem_space.set(at + 1, b1);
                self.mem_space.set(at + 2, b2);
                self.mem_space.set(at + 3, b3);
                self.registers.set(REG_STACK_TOP, RvmRegU::I32ADDR(sp - 4));
                assert(self.mem_space@ =~= store_le(old(self).mem_space@, at as int, item));
                Ok(())
            },
            _ => Ok(()),
        }
    }

    /// Pops the top of the stack as `pop_spec` says; a refused pop changes
    /// nothing.
    pub fn rvm_stack_pop(&mut self) -> (r: Result<i32, RvmFault>)
        ensures
            match pop_spec(old(self)@) {
                Ok((v, m)) => r == Ok::<i32, RvmFault>(v) && final(self)@ == m,
                Err(f) => r == Err::<i32, RvmFault>(f) && final(self)@ == old(self)@,
            },
    {
        if self.registers.len() <= REG_STACK_TOP {
            return Err(RvmFault::RegisterFault);
        }
        match self.registers[REG_STACK_TOP] {
            RvmRegU::I32ADDR(sp) => {
                if sp < 0 || sp > i32::MAX - 4 || sp as usize + 4 > self.mem_space.len() {
                    return Err(RvmFault::MemoryFault);
                }
                let at: usize = sp as usize;
                let b0: u8 = self.mem_space[at];
                let b1: u8 = self.mem_space[at + 1];
                let b2: u8 = self.mem_space[at + 2];
                let b3: u8 = self.mem_space[at + 3];
                let u: u32 = (b0 as u32) | ((b1 as u32) << 8) | ((b2 as u32) << 16) | ((b3 as u32)
                    << 24);
                self.registers.set(REG_STACK_TOP, RvmRegU::I32ADDR(sp + 4));
                Ok(
                    #[verifier::truncate]
                    (u as i32),
                )
            },
            _ => Err(RvmFault::RegisterFault),
        }
    }
}

} // verus!
