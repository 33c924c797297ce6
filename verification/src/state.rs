use vstd::prelude::*;
use crate::Chip8Error;
use crate::display::{blank_grid, draw_collides, drawn_grid};

verus! {

// The mathematical model of the machine: one record of plain values, and
// the transition functions that fetch, execute and tick are proved against.

/// Size of the byte-addressable memory.
pub const MEMORY_SIZE: usize = 4096;
/// Number of general-purpose registers.
pub const REGISTER_COUNT: usize = 16;
/// Greatest number of return addresses the call stack holds.
pub const STACK_CAPACITY: usize = 16;
/// Number of keys of the keypad.
pub const KEY_COUNT: usize = 16;
/// First address of the font region.
pub const FONT_BASE: usize = 0x50;
/// Address at which a program image is loaded and starts running.
pub const PROGRAM_START: usize = 0x200;

/// The machine state as mathematical values.
#[verifier::ext_equal]
pub struct MachineState {
    /// The most recently fetched instruction.
    pub instruction: u16,
    /// Address of the next instruction to fetch.
    pub program_counter: u16,
    /// The index register I.
    pub index: u16,
    /// The delay timer counter.
    pub delay_timer: u8,
    /// The sound timer counter.
    pub sound_timer: u8,
    /// Return addresses of the subroutine calls in progress, oldest first.
    pub stack: Seq<u16>,
    /// The 4096 bytes of memory.
    pub memory: Seq<u8>,
    /// The 16 general-purpose registers V0..VF.
    pub registers: Seq<u8>,
    /// The display grid in row-major order.
    pub display: Seq<bool>,
    /// Which of the 16 keys are currently held down.
    pub keys: Seq<bool>,
    /// `Some(x)` while a "wait for key" instruction suspends execution;
    /// the next delivered key press lands in register `x`.
    pub awaiting_key: Option<u8>,
}

/// Well-formedness of a machine state: every component has its fixed size
/// and the call stack is within capacity.
pub open spec fn state_wf(s: MachineState) -> bool {
    &&& s.memory.len() == MEMORY_SIZE
    &&& s.registers.len() == REGISTER_COUNT
    &&& s.keys.len() == KEY_COUNT
    &&& s.stack.len() <= STACK_CAPACITY
    &&& s.display.len() == crate::display::GRID_PIXELS
    &&& (s.awaiting_key matches Some(x) ==> x < 16)
}

/// The standard glyph bitmaps for the hexadecimal digits 0..F,
/// five bytes per glyph.
pub open spec fn font_table() -> Seq<u8> {
    seq![
        0xF0u8, 0x90, 0x90, 0x90, 0xF0,
        0x20, 0x60, 0x20, 0x20, 0x70,
        0xF0, 0x10, 0xF0, 0x80, 0xF0,
        0xF0, 0x10, 0xF0, 0x10, 0xF0,
        0x90, 0x90, 0xF0, 0x10, 0x10,
        0xF0, 0x80, 0xF0, 0x10, 0xF0,
        0xF0, 0x80, 0xF0, 0x90, 0xF0,
        0xF0, 0x10, 0x20, 0x40, 0x40,
        0xF0, 0x90, 0xF0, 0x90, 0xF0,
        0xF0, 0x90, 0xF0, 0x10, 0xF0,
        0xF0, 0x90, 0xF0, 0x90, 0x90,
        0xE0, 0x90, 0xE0, 0x90, 0xE0,
        0xF0, 0x80, 0x80, 0x80, 0xF0,
        0xE0, 0x90, 0x90, 0x90, 0xE0,
        0xF0, 0x80, 0xF0, 0x80, 0xF0,
        0xF0, 0x80, 0xF0, 0x80, 0x80,
    ]
}

/// `m` with the font table written over the font region.
pub open spec fn font_loaded(m: Seq<u8>) -> Seq<u8> {
    Seq::new(
        MEMORY_SIZE as nat,
        |i: int|
            if FONT_BASE <= i < FONT_BASE + 80 {
                font_table()[i - FONT_BASE]
            } else {
                m[i]
            },
    )
}

/// `m` with the program image `p` written from the load address on.
pub open spec fn program_loaded(m: Seq<u8>, p: Seq<u8>) -> Seq<u8> {
    Seq::new(
        MEMORY_SIZE as nat,
        |i: int|
            if PROGRAM_START <= i < PROGRAM_START + p.len() {
                p[i - PROGRAM_START]
            } else {
                m[i]
            },
    )
}

/// The memory contents right after start-up: zero everywhere but the font
/// region, which holds the font table.
pub open spec fn initial_memory() -> Seq<u8> {
    font_loaded(Seq::new(MEMORY_SIZE as nat, |i: int| 0u8))
}

/// The machine state at start-up.
pub open spec fn initial_state() -> MachineState {
    MachineState {
        instruction: 0,
        program_counter: PROGRAM_START as u16,
        index: 0,
        delay_timer: 0,
        sound_timer: 0,
        stack: Seq::empty(),
        memory: initial_memory(),
        registers: Seq::new(REGISTER_COUNT as nat, |i: int| 0u8),
        display: blank_grid(),
        keys: Seq::new(KEY_COUNT as nat, |i: int| false),
        awaiting_key: None,
    }
}

// The four nibbles of an instruction, highest first, and its derived fields.

/// The highest nibble of an instruction.
pub open spec fn nib0(i: u16) -> int {
    i as int / 0x1000
}

/// The second nibble: the register field x.
pub open spec fn nib1(i: u16) -> int {
    (i as int / 0x100) % 0x10
}

/// The third nibble: the register field y.
pub open spec fn nib2(i: u16) -> int {
    (i as int / 0x10) % 0x10
}

/// The lowest nibble: the field n.
pub open spec fn nib3(i: u16) -> int {
    i as int % 0x10
}

/// The low byte: the field kk.
pub open spec fn low_byte(i: u16) -> u8 {
    (i as int % 0x100) as u8
}

/// The low 12 bits: the address field nnn.
pub open spec fn addr_field(i: u16) -> u16 {
    (i as int % 0x1000) as u16
}

/// Whether a 16-bit value matches some row of the opcode table.
pub open spec fn is_defined_opcode(i: u16) -> bool {
    let n0 = nib0(i);
    let n2 = nib2(i);
    let n3 = nib3(i);
    ||| n0 == 0x0
    ||| n0 == 0x1
    ||| n0 == 0x2
    ||| n0 == 0x3
    ||| n0 == 0x4
    ||| (n0 == 0x5 && n3 == 0x0)
    ||| n0 == 0x6
    ||| n0 == 0x7
    ||| (n0 == 0x8 && (n3 == 0x0 || n3 == 0x1 || n3 == 0x2 || n3 == 0x3 || n3 == 0x4 || n3 == 0x5
        || n3 == 0x6 || n3 == 0x7 || n3 == 0xE))
    ||| (n0 == 0x9 && n3 == 0x0)
    ||| n0 == 0xA
    ||| n0 == 0xB
    ||| n0 == 0xC
    ||| n0 == 0xD
    ||| (n0 == 0xE && ((n2 == 0x9 && n3 == 0xE) || (n2 == 0xA && n3 == 0x1)))
    ||| (n0 == 0xF && ((n2 == 0x0 && n3 == 0x7) || (n2 == 0x0 && n3 == 0xA) || (n2 == 0x1 && n3
        == 0x5) || (n2 == 0x1 && n3 == 0x8) || (n2 == 0x1 && n3 == 0xE) || (n2 == 0x2 && n3 == 0x9)
        || (n2 == 0x3 && n3 == 0x3) || (n2 == 0x5 && n3 == 0x5) || (n2 == 0x6 && n3 == 0x5)))
}

/// The state with the program counter moved past the next instruction,
/// as the skip opcodes leave it.
pub open spec fn skipped(s: MachineState) -> MachineState {
    MachineState { program_counter: ((s.program_counter + 2) % 0x10000) as u16, ..s }
}

/// Whether the key selected by register value `vx` is held down: a value
/// outside the 16-key pad selects no key.
pub open spec fn key_pressed(s: MachineState, vx: u8) -> bool {
    vx < 16 && s.keys[vx as int]
}

/// What fetch does to a state: reads the two bytes at the program counter,
/// big-endian, into the instruction register and advances the counter; a
/// counter past `memory length - 2` is a fatal out-of-bounds error.
pub open spec fn fetch_spec(s: MachineState) -> Result<MachineState, Chip8Error> {
    if s.program_counter as int > s.memory.len() - 2 {
        Err(Chip8Error::OutOfBounds(s.program_counter))
    } else {
        let pc = s.program_counter as int;
        let hi = s.memory[pc];
        let lo = s.memory[pc + 1];
        Ok(
            MachineState {
                instruction: (hi * 0x100 + lo) as u16,
                program_counter: (s.program_counter + 2) as u16,
                ..s
            },
        )
    }
}

/// The semantics of the arithmetic and logic group (the opcodes whose
/// highest nibble is 8), given the register fields x and y.
pub open spec fn alu_spec(s: MachineState, x: int, y: int) -> Result<MachineState, Chip8Error> {
    let n3 = nib3(s.instruction);
    let vx = s.registers[x];
    let vy = s.registers[y];
    if n3 == 0x0 {
        Ok(MachineState { registers: s.registers.update(x, vy), ..s })
    } else if n3 == 0x1 {
        Ok(MachineState { registers: s.registers.update(x, vx | vy), ..s })
    } else if n3 == 0x2 {
        Ok(MachineState { registers: s.registers.update(x, vx & vy), ..s })
    } else if n3 == 0x3 {
        Ok(MachineState { registers: s.registers.update(x, vx ^ vy), ..s })
    } else if n3 == 0x4 {
        let carry: u8 = if vx + vy > 255 {
            1
        } else {
            0
        };
        Ok(
            MachineState {
                registers: s.registers.update(x, ((vx + vy) % 256) as u8).update(0xF, carry),
                ..s
            },
        )
    } else if n3 == 0x5 {
        let no_borrow: u8 = if vx >= vy {
            1
        } else {
            0
        };
        Ok(
            MachineState {
                registers: s.registers.update(x, ((vx - vy + 256) % 256) as u8).update(
                    0xF,
                    no_borrow,
                ),
                ..s
            },
        )
    } else if n3 == 0x6 {
        Ok(
            MachineState {
                registers: s.registers.update(x, (vx as int / 2) as u8).update(
                    0xF,
                    (vx as int % 2) as u8,
                ),
                ..s
            },
        )
    } else if n3 == 0x7 {
        let no_borrow: u8 = if vy >= vx {
            1
        } else {
            0
        };
        Ok(
            MachineState {
                registers: s.registers.update(x, ((vy - vx + 256) % 256) as u8).update(
                    0xF,
                    no_borrow,
                ),
                ..s
            },
        )
    } else if n3 == 0xE {
        Ok(
            MachineState {
                registers: s.registers.update(x, ((vx * 2) % 256) as u8).update(
                    0xF,
                    (vx as int / 128) as u8,
                ),
                ..s
            },
        )
    } else {
        Err(Chip8Error::InvalidInstruction(s.instruction))
    }
}

/// The semantics of the miscellaneous group (the opcodes whose highest
/// nibble is F), given the register field x.
pub open spec fn misc_spec(s: MachineState, x: int) -> Result<MachineState, Chip8Error> {
    let n2 = nib2(s.instruction);
    let n3 = nib3(s.instruction);
    let vx = s.registers[x];
    let base = s.index as int;
    if n2 == 0x0 && n3 == 0x7 {
        Ok(MachineState { registers: s.registers.update(x, s.delay_timer), ..s })
    } else if n2 == 0x0 && n3 == 0xA {
        Ok(MachineState { awaiting_key: Some(x as u8), ..s })
    } else if n2 == 0x1 && n3 == 0x5 {
        Ok(MachineState { delay_timer: vx, ..s })
    } else if n2 == 0x1 && n3 == 0x8 {
        Ok(MachineState { sound_timer: vx, ..s })
    } else if n2 == 0x1 && n3 == 0xE {
        Ok(MachineState { index: ((s.index + vx) % 0x10000) as u16, ..s })
    } else if n2 == 0x2 && n3 == 0x9 {
        Ok(MachineState { index: (FONT_BASE + vx * 5) as u16, ..s })
    } else if n2 == 0x3 && n3 == 0x3 {
        if base + 2 >= MEMORY_SIZE {
            Err(Chip8Error::OutOfBounds(s.index))
        } else {
            Ok(
                MachineState {
                    memory: s.memory.update(base, (vx as int / 100) as u8).update(
                        base + 1,
                        ((vx as int / 10) % 10) as u8,
                    ).update(base + 2, (vx as int % 10) as u8),
                    ..s
                },
            )
        }
    } else if n2 == 0x5 && n3 == 0x5 {
        if base + x >= MEMORY_SIZE {
            Err(Chip8Error::OutOfBounds(s.index))
        } else {
            Ok(
                MachineState {
                    memory: Seq::new(
                        MEMORY_SIZE as nat,
                        |j: int|
                            if base <= j <= base + x {
                                s.registers[j - base]
                            } else {
                                s.memory[j]
                            },
                    ),
                    ..s
                },
            )
        }
    } else if n2 == 0x6 && n3 == 0x5 {
        if base + x >= MEMORY_SIZE {
            Err(Chip8Error::OutOfBounds(s.index))
        } else {
            Ok(
                MachineState {
                    registers: Seq::new(
                        REGISTER_COUNT as nat,
                        |j: int|
                            if j <= x {
                                s.memory[base + j]
                            } else {
                                s.registers[j]
                            },
                    ),
                    ..s
                },
            )
        }
    } else {
        Err(Chip8Error::InvalidInstruction(s.instruction))
    }
}

/// The semantics of executing the current instruction: the next state, or
/// the fatal error the opcode table prescribes. `rand` is the fresh random
/// byte that the random-number opcode consumes.
pub open spec fn execute_spec(s: MachineState, rand: u8) -> Result<MachineState, Chip8Error> {
    let i = s.instruction;
    let n0 = nib0(i);
    let n1 = nib1(i);
    let n2 = nib2(i);
    let n3 = nib3(i);
    let x = n1;
    let y = n2;
    let kk = low_byte(i);
    let nnn = addr_field(i);
    let vx = s.registers[x];
    let vy = s.registers[y];
    if n0 == 0x0 && n1 == 0x0 && n2 == 0xE && n3 == 0x0 {
        Ok(MachineState { display: blank_grid(), ..s })
    } else if n0 == 0x0 && n1 == 0x0 && n2 == 0xE && n3 == 0xE {
        if s.stack.len() == 0 {
            Err(Chip8Error::StackUnderflow)
        } else {
            Ok(MachineState { program_counter: s.stack.last(), stack: s.stack.drop_last(), ..s })
        }
    } else if n0 == 0x0 {
        Ok(s)
    } else if n0 == 0x1 {
        Ok(MachineState { program_counter: nnn, ..s })
    } else if n0 == 0x2 {
        if s.stack.len() >= STACK_CAPACITY {
            Err(Chip8Error::StackOverflow)
        } else {
            Ok(
                MachineState {
                    stack: s.stack.push(s.program_counter),
                    program_counter: nnn,
                    ..s
                },
            )
        }
    } else if n0 == 0x3 {
        Ok(
            if vx == kk {
                skipped(s)
            } else {
                s
            },
        )
    } else if n0 == 0x4 {
        Ok(
            if vx != kk {
                skipped(s)
            } else {
                s
            },
        )
    } else if n0 == 0x5 && n3 == 0x0 {
        Ok(
            if vx == vy {
                skipped(s)
            } else {
                s
            },
        )
    } else if n0 == 0x6 {
        Ok(MachineState { registers: s.registers.update(x, kk), ..s })
    } else if n0 == 0x7 {
        Ok(MachineState { registers: s.registers.update(x, ((vx + kk) % 256) as u8), ..s })
    } else if n0 == 0x8 {
        alu_spec(s, x, y)
    } else if n0 == 0x9 && n3 == 0x0 {
        Ok(
            if vx != vy {
                skipped(s)
            } else {
                s
            },
        )
    } else if n0 == 0xA {
        Ok(MachineState { index: nnn, ..s })
    } else if n0 == 0xB {
        Ok(MachineState { program_counter: (nnn + s.registers[0]) as u16, ..s })
    } else if n0 == 0xC {
        Ok(MachineState { registers: s.registers.update(x, rand & kk), ..s })
    } else if n0 == 0xD {
        if s.index as int + n3 > MEMORY_SIZE {
            Err(Chip8Error::OutOfBounds(s.index))
        } else {
            let sprite = s.memory.subrange(s.index as int, s.index as int + n3);
            let collided = draw_collides(s.display, vx, vy, sprite);
            Ok(
                MachineState {
                    display: drawn_grid(s.display, vx, vy, sprite),
                    registers: s.registers.update(
                        0xF,
                        if collided {
                            1u8
                        } else {
                            0u8
                        },
                    ),
                    ..s
                },
            )
        }
    } else if n0 == 0xE && n2 == 0x9 && n3 == 0xE {
        Ok(
            if key_pressed(s, vx) {
                skipped(s)
            } else {
                s
            },
        )
    } else if n0 == 0xE && n2 == 0xA && n3 == 0x1 {
        Ok(
            if !key_pressed(s, vx) {
                skipped(s)
            } else {
                s
            },
        )
    } else if n0 == 0xF {
        misc_spec(s, x)
    } else {
        Err(Chip8Error::InvalidInstruction(i))
    }
}

/// What one tick of the 60 Hz clock does: each timer that is nonzero goes
/// down by one, and both clamp at zero.
pub open spec fn ticked(s: MachineState) -> MachineState {
    MachineState {
        delay_timer: if s.delay_timer > 0 {
            (s.delay_timer - 1) as u8
        } else {
            0
        },
        sound_timer: if s.sound_timer > 0 {
            (s.sound_timer - 1) as u8
        } else {
            0
        },
        ..s
    }
}

} // verus!
