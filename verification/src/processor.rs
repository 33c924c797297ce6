use vstd::prelude::*;
use crate::Chip8Error;
use crate::display::Display;
use crate::state::{
    addr_field, execute_spec, fetch_spec, font_loaded, font_table, initial_state, key_pressed,
    low_byte, nib0, nib1, nib2, nib3, program_loaded, skipped, state_wf, ticked, MachineState,
    FONT_BASE, KEY_COUNT, MEMORY_SIZE, PROGRAM_START, REGISTER_COUNT, STACK_CAPACITY,
};

verus! {

/// The interpreter engine: one record that owns the whole machine state.
/// `fetch` and `execute` advance it by one instruction; `tick_timers`
/// advances the two 60 Hz counters; the remaining methods are the edges
/// through which a host loads programs, delivers key events and reads
/// the display.
pub struct Processor {
    instruction: u16,
    program_counter: u16,
    index: u16,
    delay_timer: u8,
    sound_timer: u8,
    stack: Vec<u16>,
    memory: Vec<u8>,
    registers: Vec<u8>,
    display: Display,
    keys: Vec<bool>,
    awaiting_key: Option<u8>,
}

impl View for Processor {
    type V = MachineState;

    closed spec fn view(&self) -> MachineState {
        MachineState {
            instruction: self.instruction,
            program_counter: self.program_counter,
            index: self.index,
            delay_timer: self.delay_timer,
            sound_timer: self.sound_timer,
            stack: self.stack@,
            memory: self.memory@,
            registers: self.registers@,
            display: self.display@,
            keys: self.keys@,
            awaiting_key: self.awaiting_key,
        }
    }
}

fn byte_run(len: usize, value: u8) -> (v: Vec<u8>)
    ensures
        v@ == Seq::new(len as nat, |i: int| value),
{
    let mut v: Vec<u8> = Vec::new();
    let mut i: usize = 0;
    while i < len
        invariant
            i <= len,
            v@ == Seq::new(i as nat, |j: int| value),
        decreases len - i,
    {
        v.push(value);
        proof {
            assert(v@ =~= Seq::new((i + 1) as nat, |j: int| value));
        }
        i = i + 1;
    }
    v
}

fn bool_run(len: usize, value: bool) -> (v: Vec<bool>)
    ensures
        v@ == Seq::new(len as nat, |i: int| value),
{
    let mut v: Vec<bool> = Vec::new();
    let mut i: usize = 0;
    while i < len
        invariant
            i <= len,
            v@ == Seq::new(i as nat, |j: int| value),
        decreases len - i,
    {
        v.push(value);
        proof {
            assert(v@ =~= Seq::new((i + 1) as nat, |j: int| value));
        }
        i = i + 1;
    }
    v
}

fn font_bytes() -> (v: Vec<u8>)
    ensures
        v@ == font_table(),
{
    let v: Vec<u8> = vec![
        0xF0, 0x90, 0x90, 0x90, 0xF0,
        0x20, 0x60, 0x20, 0x20, 0x70,
        0xF0, 0x10, 0xF0, 0x80, 0xF0,
        0xF0, 0x10, 0xF0, 0x10, 0xF0,
        0x90, 0x90, 0xF0, 0x10, 0x10,
        0xF0, 0x80, 0xF0, 0x10, 0xF0,
        0xF0, 0x80, 0xF0, 0x90, 0xF0,
        0xF0, 0x10, 0x20, 0x40, 0x40,
        0xF0, 0x90, 0xF0, 0x90, 0xF0,
        0xF0, 0x90, 0xF0, 0x10, 0xF0,
        0xF0, 0x90, 0xF0, 0x90, 0x90,
        0xE0, 0x90, 0xE0, 0x90, 0xE0,
        0xF0, 0x80, 0x80, 0x80, 0xF0,
        0xE0, 0x90, 0x90, 0x90, 0xE0,
        0xF0, 0x80, 0xF0, 0x80, 0xF0,
        0xF0, 0x80, 0xF0, 0x80, 0x80,
    ];
    proof {
        assert(v@ =~= font_table());
    }
    v
}

impl Processor {
    /// Every component of the state has its fixed size and the call stack
    /// is within capacity.
    pub open spec fn wf(&self) -> bool {
        state_wf(self@)
    }

    /// A machine at start-up: memory zeroed but for the font table, all
    /// registers, timers, keys and the display cleared, the program counter
    /// at the load address.
    pub fn new() -> (p: Processor)
        ensures
            p.wf(),
            p@ == initial_state(),
    {
        let mut p = Processor {
            instruction: 0,
            program_counter: PROGRAM_START as u16,
            index: 0,
            delay_timer: 0,
            sound_timer: 0,
            stack: Vec::new(),
            memory: byte_run(MEMORY_SIZE, 0),
            registers: byte_run(REGISTER_COUNT, 0),
            display: Display::new(),
            keys: bool_run(KEY_COUNT, false),
            awaiting_key: None,
        };
        p.load_font();
        proof {
            assert(p@.memory =~= initial_state().memory);
            assert(p@ =~= initial_state());
        }
        p
    }

    /// Copies the font table into the font region.
    fn load_font(&mut self)
        requires
            old(self).wf(),
        ensures
            final(self).wf(),
            final(self)@ == (MachineState { memory: font_loaded(old(self)@.memory), ..old(self)@ }),
    {
        let font = font_bytes();
        let mut j: usize = 0;
        while j < 80
            invariant
                old(self).wf(),
                j <= 80,
                font@ == font_table(),
                self.memory@.len() == MEMORY_SIZE,
                self@ == (MachineState { memory: self.memory@, ..old(self)@ }),
                forall|i: int|
                    0 <= i < MEMORY_SIZE ==> self.memory@[i] == (if FONT_BASE <= i < FONT_BASE + j {
                        font_table()[i - FONT_BASE]
                    } else {
                        old(self)@.memory[i]
                    }),
            decreases 80 - j,
        {
            self.memory[FONT_BASE + j] = font[j];
            j = j + 1;
        }
        proof {
            assert(self@.memory =~= font_loaded(old(self)@.memory));
            assert(self@ =~= (MachineState { memory: font_loaded(old(self)@.memory), ..old(self)@ }));
        }
    }

    /// Copies a program image into memory from the load address on; an image
    /// that would run past the end of memory is refused whole, and the
    /// reported address is the end of the address space.
    pub fn load_program(&mut self, program: &Vec<u8>) -> (r: Result<(), Chip8Error>)
        requires
            old(self).wf(),
        ensures
            final(self).wf(),
            PROGRAM_START + program@.len() > MEMORY_SIZE ==> r == Err::<(), Chip8Error>(
                Chip8Error::OutOfBounds(MEMORY_SIZE as u16),
            ) && final(self)@ == old(self)@,
            PROGRAM_START + program@.len() <= MEMORY_SIZE ==> r is Ok && final(self)@ == (
            MachineState { memory: program_loaded(old(self)@.memory, program@), ..old(self)@ }),
    {
        if program.len() > MEMORY_SIZE - PROGRAM_START {
            return Err(Chip8Error::OutOfBounds(MEMORY_SIZE as u16));
        }
        let mut j: usize = 0;
        while j < program.len()
            invariant
                old(self).wf(),
                j <= program@.len(),
                PROGRAM_START + program@.len() <= MEMORY_SIZE,
                self.memory@.len() == MEMORY_SIZE,
                self@ == (MachineState { memory: self.memory@, ..old(self)@ }),
                forall|i: int|
                    0 <= i < MEMORY_SIZE ==> self.memory@[i] == (if PROGRAM_START <= i
                        < PROGRAM_START + j {
                        program@[i - PROGRAM_START]
                    } else {
                        old(self)@.memory[i]
                    }),
            decreases program@.len() - j,
        {
            self.memory[PROGRAM_START + j] = program[j];
            j = j + 1;
        }
        proof {
            assert(self@.memory =~= program_loaded(old(self)@.memory, program@));
            assert(self@ =~= (MachineState {
                memory: program_loaded(old(self)@.memory, program@),
                ..old(self)@
            }));
        }
        Ok(())
    }

    /// Reads the byte at `addr`, or reports it out of bounds.
    pub fn read_byte(&self, addr: u16) -> (r: Result<u8, Chip8Error>)
        requires
            self.wf(),
        ensures
            r == (if addr < MEMORY_SIZE {
                Ok::<u8, Chip8Error>(self@.memory[addr as int])
            } else {
                Err::<u8, Chip8Error>(Chip8Error::OutOfBounds(addr))
            }),
    {
        if (addr as usize) < MEMORY_SIZE {
            Ok(self.memory[addr as usize])
        } else {
            Err(Chip8Error::OutOfBounds(addr))
        }
    }

    /// Writes the byte at `addr`, or reports it out of bounds and changes
    /// nothing.
    pub fn write_byte(&mut self, addr: u16, value: u8) -> (r: Result<(), Chip8Error>)
        requires
            old(self).wf(),
        ensures
            final(self).wf(),
            addr < MEMORY_SIZE ==> r is Ok && final(self)@ == (MachineState {
                memory: old(self)@.memory.update(addr as int, value),
                ..old(self)@
            }),
            addr >= MEMORY_SIZE ==> r == Err::<(), Chip8Error>(Chip8Error::OutOfBounds(addr))
                && final(self)@ == old(self)@,
    {
        if (addr as usize) < MEMORY_SIZE {
            self.memory[addr as usize] = value;
            Ok(())
        } else {
            Err(Chip8Error::OutOfBounds(addr))
        }
    }

    /// Reads general-purpose register `r`; indices run from 0 to 15 by
    /// construction of the instruction fields.
    pub fn read_register(&self, r: u8) -> (v: u8)
        requires
            self.wf(),
            r < 16,
        ensures
            v == self@.registers[r as int],
    {
        self.registers[r as usize]
    }

    /// Writes general-purpose register `r`.
    pub fn write_register(&mut self, r: u8, value: u8)
        requires
            old(self).wf(),
            r < 16,
        ensures
            final(self).wf(),
            final(self)@ == (MachineState {
                registers: old(self)@.registers.update(r as int, value),
                ..old(self)@
            }),
    {
        self.registers[r as usize] = value;
        proof {
            assert(self@ =~= (MachineState {
                registers: old(self)@.registers.update(r as int, value),
                ..old(self)@
            }));
        }
    }

    /// The address of the next instruction to fetch.
    pub fn pc(&self) -> (r: u16)
        ensures
            r == self@.program_counter,
    {
        self.program_counter
    }

    /// The index register I.
    pub fn index_register(&self) -> (r: u16)
        ensures
            r == self@.index,
    {
        self.index
    }

    /// The most recently fetched instruction.
    pub fn current_instruction(&self) -> (r: u16)
        ensures
            r == self@.instruction,
    {
        self.instruction
    }

    /// The delay timer counter.
    pub fn delay_timer(&self) -> (r: u8)
        ensures
            r == self@.delay_timer,
    {
        self.delay_timer
    }

    /// The sound timer counter.
    pub fn sound_timer(&self) -> (r: u8)
        ensures
            r == self@.sound_timer,
    {
        self.sound_timer
    }

    /// How many subroutine calls are in progress.
    pub fn stack_depth(&self) -> (r: usize)
        ensures
            r == self@.stack.len(),
    {
        self.stack.len()
    }

    /// Whether the sound timer is running, for the host's audio sink.
    pub fn sound_active(&self) -> (r: bool)
        ensures
            r == (self@.sound_timer > 0),
    {
        self.sound_timer > 0
    }

    /// Whether a "wait for key" instruction is holding execution; while it
    /// is, the scheduler must not fetch, though timers keep ticking.
    pub fn is_waiting(&self) -> (r: bool)
        ensures
            r == (self@.awaiting_key is Some),
    {
        match self.awaiting_key {
            Some(_) => true,
            None => false,
        }
    }

    /// Reads the pixel at column `x`, row `y` of the display.
    pub fn pixel(&self, x: usize, y: usize) -> (r: bool)
        requires
            self.wf(),
            x < crate::display::GRID_WIDTH,
            y < crate::display::GRID_HEIGHT,
        ensures
            r == self@.display[crate::display::pixel_index(x as int, y as int)],
    {
        self.display.pixel(x, y)
    }

    /// A copy of the display grid in row-major order, for the renderer.
    pub fn display_snapshot(&self) -> (r: Vec<bool>)
        requires
            self.wf(),
        ensures
            r@ == self@.display,
    {
        self.display.snapshot()
    }

    /// Records that a key went down. A value outside the 16-key pad names
    /// no key and is ignored.
    pub fn press_key(&mut self, key: u8)
        requires
            old(self).wf(),
        ensures
            final(self).wf(),
            key < 16 ==> final(self)@ == (MachineState {
                keys: old(self)@.keys.update(key as int, true),
                ..old(self)@
            }),
            key >= 16 ==> final(self)@ == old(self)@,
    {
        if key < 16 {
            self.keys[key as usize] = true;
            proof {
                assert(self@ =~= (MachineState {
                    keys: old(self)@.keys.update(key as int, true),
                    ..old(self)@
                }));
            }
        }
    }

    /// Records that a key went up. A value outside the 16-key pad names
    /// no key and is ignored.
    pub fn release_key(&mut self, key: u8)
        requires
            old(self).wf(),
        ensures
            final(self).wf(),
            key < 16 ==> final(self)@ == (MachineState {
                keys: old(self)@.keys.update(key as int, false),
                ..old(self)@
            }),
            key >= 16 ==> final(self)@ == old(self)@,
    {
        if key < 16 {
            self.keys[key as usize] = false;
            proof {
                assert(self@ =~= (MachineState {
                    keys: old(self)@.keys.update(key as int, false),
                    ..old(self)@
                }));
            }
        }
    }

    /// Delivers a key-press event to a pending "wait for key": the key's
    /// value lands in the awaited register and execution may resume.
    /// Without a pending wait, or with a value outside the pad, the event
    /// changes nothing.
    pub fn deliver_key(&mut self, key: u8)
        requires
            old(self).wf(),
        ensures
            final(self).wf(),
            old(self)@.awaiting_key is Some && key < 16 ==> final(self)@ == (MachineState {
                registers: old(self)@.registers.update(
                    old(self)@.awaiting_key.unwrap() as int,
                    key,
                ),
                awaiting_key: None,
                ..old(self)@
            }),
            !(old(self)@.awaiting_key is Some && key < 16) ==> final(self)@ == old(self)@,
    {
        if key < 16 {
            match self.awaiting_key {
                Some(x) => {
                    self.registers[x as usize] = key;
                    self.awaiting_key = None;
                    proof {
                        assert(self@ =~= (MachineState {
                            registers: old(self)@.registers.update(
                                old(self)@.awaiting_key.unwrap() as int,
                                key,
                            ),
                            awaiting_key: None,
                            ..old(self)@
                        }));
                    }
                },
                None => {},
            }
        }
    }

    /// One tick of the 60 Hz clock: both timers count down and clamp at
    /// zero.
    pub fn tick_timers(&mut self)
        requires
            old(self).wf(),
        ensures
            final(self).wf(),
            final(self)@ == ticked(old(self)@),
    {
        if self.delay_timer > 0 {
            self.delay_timer = self.delay_timer - 1;
        }
        if self.sound_timer > 0 {
            self.sound_timer = self.sound_timer - 1;
        }
        proof {
            assert(self@ =~= ticked(old(self)@));
        }
    }

    /// Reads the two bytes at the program counter, big-endian, into the
    /// instruction register and advances the counter by two; fatal when
    /// fewer than two bytes remain.
    pub fn fetch(&mut self) -> (r: Result<(), Chip8Error>)
        requires
            old(self).wf(),
        ensures
            final(self).wf(),
            (match fetch_spec(old(self)@) {
                Ok(s2) => r is Ok && final(self)@ == s2,
                Err(e) => r == Err::<(), Chip8Error>(e) && final(self)@ == old(self)@,
            }),
    {
        if self.program_counter as usize > self.memory.len() - 2 {
            return Err(Chip8Error::OutOfBounds(self.program_counter));
        }
        let pc = self.program_counter as usize;
        let hi = self.memory[pc];
        let lo = self.memory[pc + 1];
        self.instruction = (hi as u16) * 0x100 + (lo as u16);
        self.program_counter = self.program_counter + 2;
        proof {
            assert(self@ =~= (match fetch_spec(old(self)@) {
                Ok(s2) => s2,
                Err(_) => old(self)@,
            }));
        }
        Ok(())
    }

    /// Moves the program counter past the next instruction, as the skip
    /// opcodes do.
    fn skip_next(&mut self)
        ensures
            final(self)@ == skipped(old(self)@),
    {
        let next = (self.program_counter as u32 + 2) % 0x10000;
        self.program_counter = next as u16;
        proof {
            assert(self@ =~= skipped(old(self)@));
        }
    }

    /// Applies the semantics of the current instruction to the machine
    /// state. `rand` is the fresh random byte the random-number opcode
    /// consumes; every outcome of it is accounted for. On a fatal error the
    /// state is left exactly as it was.
    pub fn execute(&mut self, rand: u8) -> (r: Result<(), Chip8Error>)
        requires
            old(self).wf(),
        ensures
            final(self).wf(),
            (match execute_spec(old(self)@, rand) {
                Ok(s2) => r is Ok && final(self)@ == s2,
                Err(e) => r == Err::<(), Chip8Error>(e) && final(self)@ == old(self)@,
            }),
    {
        let instruction = self.instruction;
        let n0 = instruction / 0x1000;
        let n1 = (instruction / 0x100) % 0x10;
        let n2 = (instruction / 0x10) % 0x10;
        let n3 = instruction % 0x10;
        let x = n1 as usize;
        let y = n2 as usize;
        let kk = (instruction % 0x100) as u8;
        let nnn = instruction % 0x1000;
        proof {
            assert(n0 as int == nib0(instruction));
            assert(n1 as int == nib1(instruction));
            assert(n2 as int == nib2(instruction));
            assert(n3 as int == nib3(instruction));
            assert(kk == low_byte(instruction));
            assert(nnn == addr_field(instruction));
            assert(x < 16 && y < 16);
        }
        match (n0, n1, n2, n3) {
            (0x0, 0x0, 0xE, 0x0) => {
                self.display.clear();
            },
            (0x0, 0x0, 0xE, 0xE) => {
                if self.stack.len() == 0 {
                    return Err(Chip8Error::StackUnderflow);
                }
                let addr = self.stack.pop().unwrap();
                self.program_counter = addr;
            },
            (0x0, _, _, _) => {},
            (0x1, _, _, _) => {
                self.program_counter = nnn;
            },
            (0x2, _, _, _) => {
                if self.stack.len() >= STACK_CAPACITY {
                    return Err(Chip8Error::StackOverflow);
                }
                self.stack.push(self.program_counter);
                self.program_counter = nnn;
            },
            (0x3, _, _, _) => {
                if self.registers[x] == kk {
                    self.skip_next();
                }
            },
            (0x4, _, _, _) => {
                if self.registers[x] != kk {
                    self.skip_next();
                }
            },
            (0x5, _, _, 0x0) => {
                if self.registers[x] == self.registers[y] {
                    self.skip_next();
                }
            },
            (0x6, _, _, _) => {
                self.registers[x] = kk;
            },
            (0x7, _, _, _) => {
                let vx = self.registers[x];
                let sum = (vx as u16 + kk as u16) % 256;
                self.registers[x] = sum as u8;
            },
            (0x8, _, _, 0x0) => {
                let vy = self.registers[y];
                self.registers[x] = vy;
            },
            (0x8, _, _, 0x1) => {
                let vx = self.registers[x];
                let vy = self.registers[y];
                self.registers[x] = vx | vy;
            },
            (0x8, _, _, 0x2) => {
                let vx = self.registers[x];
                let vy = self.registers[y];
                self.registers[x] = vx & vy;
            },
            (0x8, _, _, 0x3) => {
                let vx = self.registers[x];
                let vy = self.registers[y];
                self.registers[x] = vx ^ vy;
            },
            (0x8, _, _, 0x4) => {
                let vx = self.registers[x];
                let vy = self.registers[y];
                let sum = vx as u16 + vy as u16;
                let carry: u8 = if sum > 255 {
                    1
                } else {
                    0
                };
                self.registers[x] = (sum % 256) as u8;
                self.registers[15] = carry;
            },
            (0x8, _, _, 0x5) => {
                let vx = self.registers[x];
                let vy = self.registers[y];
                let no_borrow: u8 = if vx >= vy {
                    1
                } else {
                    0
                };
                let diff = (vx as u16 + 256 - vy as u16) % 256;
                self.registers[x] = diff as u8;
                self.registers[15] = no_borrow;
            },
            (0x8, _, _, 0x6) => {
                let vx = self.registers[x];
                self.registers[x] = vx / 2;
                self.registers[15] = vx % 2;
            },
            (0x8, _, _, 0x7) => {
                let vx = self.registers[x];
                let vy = self.registers[y];
                let no_borrow: u8 = if vy >= vx {
                    1
                } else {
                    0
                };
                let diff = (vy as u16 + 256 - vx as u16) % 256;
                self.registers[x] = diff as u8;
                self.registers[15] = no_borrow;
            },
            (0x8, _, _, 0xE) => {
                let vx = self.registers[x];
                self.registers[x] = ((vx as u16 * 2) % 256) as u8;
                self.registers[15] = vx / 128;
            },
            (0x9, _, _, 0x0) => {
                if self.registers[x] != self.registers[y] {
                    self.skip_next();
                }
            },
            (0xA, _, _, _) => {
                self.index = nnn;
            },
            (0xB, _, _, _) => {
                self.program_counter = nnn + self.registers[0] as u16;
            },
            (0xC, _, _, _) => {
                self.registers[x] = rand & kk;
            },
            (0xD, _, _, _) => {
                let n = n3 as usize;
                if self.index as usize + n > MEMORY_SIZE {
                    return Err(Chip8Error::OutOfBounds(self.index));
                }
                let base = self.index as usize;
                let mut sprite: Vec<u8> = Vec::new();
                let mut k: usize = 0;
                while k < n
                    invariant
                        old(self).wf(),
                        self@ == old(self)@,
                        self.memory@.len() == MEMORY_SIZE,
                        base == old(self)@.index,
                        base + n <= MEMORY_SIZE,
                        k <= n,
                        sprite@ == self.memory@.subrange(base as int, base + k),
                    decreases n - k,
                {
                    sprite.push(self.memory[base + k]);
                    proof {
                        assert(sprite@ =~= self.memory@.subrange(base as int, base + k + 1));
                    }
                    k = k + 1;
                }
                let vx = self.registers[x];
                let vy = self.registers[y];
                let collided = self.display.draw(vx, vy, &sprite);
                let flag: u8 = if collided {
                    1
                } else {
                    0
                };
                self.registers[15] = flag;
            },
            (0xE, _, 0x9, 0xE) => {
                let vx = self.registers[x];
                let pressed = vx < 16 && self.keys[vx as usize];
                proof {
                    assert(pressed == key_pressed(old(self)@, vx));
                }
                if pressed {
                    self.skip_next();
                }
            },
            (0xE, _, 0xA, 0x1) => {
                let vx = self.registers[x];
                let pressed = vx < 16 && self.keys[vx as usize];
                proof {
                    assert(pressed == key_pressed(old(self)@, vx));
                }
                if !pressed {
                    self.skip_next();
                }
            },
            (0xF, _, 0x0, 0x7) => {
                self.registers[x] = self.delay_timer;
            },
            (0xF, _, 0x0, 0xA) => {
                self.awaiting_key = Some(n1 as u8);
            },
            (0xF, _, 0x1, 0x5) => {
                self.delay_timer = self.registers[x];
            },
            (0xF, _, 0x1, 0x8) => {
                self.sound_timer = self.registers[x];
            },
            (0xF, _, 0x1, 0xE) => {
                let vx = self.registers[x];
                let next = (self.index as u32 + vx as u32) % 0x10000;
                self.index = next as u16;
            },
            (0xF, _, 0x2, 0x9) => {
                let vx = self.registers[x];
                self.index = FONT_BASE as u16 + vx as u16 * 5;
            },
            (0xF, _, 0x3, 0x3) => {
                if self.index as usize + 2 >= MEMORY_SIZE {
                    return Err(Chip8Error::OutOfBounds(self.index));
                }
                let base = self.index as usize;
                let vx = self.registers[x];
                self.memory[base] = vx / 100;
                self.memory[base + 1] = (vx / 10) % 10;
                self.memory[base + 2] = vx % 10;
            },
            (0xF, _, 0x5, 0x5) => {
                if self.index as usize + x >= MEMORY_SIZE {
                    return Err(Chip8Error::OutOfBounds(self.index));
                }
                let base = self.index as usize;
                let mut j: usize = 0;
                while j <= x
                    invariant
                        old(self).wf(),
                        x < 16,
                        base == old(self)@.index,
                        base + x < MEMORY_SIZE,
                        j <= x + 1,
                        self.memory@.len() == MEMORY_SIZE,
                        self@ == (MachineState { memory: self.memory@, ..old(self)@ }),
                        forall|i: int|
                            0 <= i < MEMORY_SIZE ==> self.memory@[i] == (if base <= i < base + j {
                                old(self)@.registers[i - base]
                            } else {
                                old(self)@.memory[i]
                            }),
                    decreases x + 1 - j,
                {
                    self.memory[base + j] = self.registers[j];
                    j = j + 1;
                }
                proof {
                    assert(self@.memory =~= Seq::new(
                        MEMORY_SIZE as nat,
                        |i: int|
                            if base <= i <= base + x {
                                old(self)@.registers[i - base]
                            } else {
                                old(self)@.memory[i]
                            },
                    ));
                }
            },
            (0xF, _, 0x6, 0x5) => {
                if self.index as usize + x >= MEMORY_SIZE {
                    return Err(Chip8Error::OutOfBounds(self.index));
                }
                let base = self.index as usize;
                let mut j: usize = 0;
                while j <= x
                    invariant
                        old(self).wf(),
                        x < 16,
                        base == old(self)@.index,
                        base + x < MEMORY_SIZE,
                        j <= x + 1,
                        self.registers@.len() == REGISTER_COUNT,
                        self@ == (MachineState { registers: self.registers@, ..old(self)@ }),
                        forall|i: int|
                            0 <= i < REGISTER_COUNT ==> self.registers@[i] == (if 0 <= i < j {
                                old(self)@.memory[base + i]
                            } else {
                                old(self)@.registers[i]
                            }),
                    decreases x + 1 - j,
                {
                    self.registers[j] = self.memory[base + j];
                    j = j + 1;
                }
                proof {
                    assert(self@.registers =~= Seq::new(
                        REGISTER_COUNT as nat,
                        |i: int|
                            if i <= x {
                                old(self)@.memory[base + i]
                            } else {
                                old(self)@.registers[i]
                            },
                    ));
                }
            },
            _ => {
                return Err(Chip8Error::InvalidInstruction(instruction));
            },
        }
        proof {
            assert(self@ =~= (match execute_spec(old(self)@, rand) {
                Ok(s2) => s2,
                Err(_) => old(self)@,
            }));
        }
        Ok(())
    }
}

} // verus!
