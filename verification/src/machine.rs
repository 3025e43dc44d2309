//! Machine state and the execution engine.
//!
//! The machine owns 4096 bytes of memory (the first 80 bytes hold the glyph
//! font table), 16 general-purpose 8-bit registers, the 16-bit address
//! register, the program counter, two 8-bit countdown timers, the call stack
//! and the 32x64 frame buffer. State is mutated in place for the life of a
//! run.

use vstd::prelude::*;
use vstd::arithmetic::div_mod::lemma_fundamental_div_mod_converse;

use crate::display::spec_draw_fb;
use crate::display::spec_draw_collision;
use crate::display::display;
use crate::instruction::Instruction;
use crate::instruction::spec_decode;
use crate::opcode::lemma_field_bounds;
use crate::opcode::spec_opcode;

verus! {

/// Everything that can go fatally wrong in a run, surfaced with the
/// diagnostic context the caller needs.
#[derive(Debug, Clone, Copy, PartialEq, Eq, Structural)]
pub enum Chip8Error {
    /// A fetched word matches no instruction class; carries the offending
    /// word and the program counter after the fetch.
    DecodeFailure { word: u16, pc: u16 },
    /// A return instruction executed with an empty call stack.
    StackUnderflow,
    /// A program image longer than the loadable region was rejected.
    ImageTooLarge,
}

/// Whether a cycle left the machine running or reached the explicit halt
/// instruction (a normal, successful end of run).
#[derive(Debug, Clone, Copy, PartialEq, Eq, Structural)]
pub enum StepResult {
    Running,
    Halted,
}

/// The mathematical model of the whole mutable machine.
#[verifier::ext_equal]
pub struct MachineModel {
    pub mem: Seq<u8>,
    pub v: Seq<u8>,
    pub i: u16,
    pub pc: u16,
    pub delay: u8,
    pub sound: u8,
    pub stack: Seq<u16>,
    pub fb: Seq<bool>,
    pub old_shift: bool,
}

impl MachineModel {
    /// Structural well-formedness: the sizes every operation relies on.
    pub open spec fn wf(self) -> bool {
        &&& self.mem.len() == 4096
        &&& self.v.len() == 16
        &&& self.fb.len() == 2048
        &&& self.i < 4096
    }
}

/// The fixed 80-byte glyph font table: 16 glyphs of 5 bytes each, one per
/// hex digit.
pub open spec fn spec_font() -> Seq<u8> {
    seq![
        0xF0u8, 0x90, 0x90, 0x90, 0xF0,
        0x20, 0x60, 0x20, 0x20, 0x70,
        0xF0, 0x10, 0xF0, 0x80, 0xF0,
        0xF0, 0x10, 0xF0, 0x10, 0xF0,
        0x90, 0x90, 0xF0, 0x10, 0x10,
        0xF0, 0x80, 0xF0, 0x10, 0xF0,
        0xF0, 0x80, 0xF0, 0x90, 0xF0,
        0xF0, 0x10, 0x20, 0x40, 0x40,
        0xF0, 0x90, 0xF0, 0x90, 0xF0,
        0xF0, 0x90, 0xF0, 0x10, 0xF0,
        0xF0, 0x90, 0xF0, 0x90, 0x90,
        0xE0, 0x90, 0xE0, 0x90, 0xE0,
        0xF0, 0x80, 0x80, 0x80, 0xF0,
        0xE0, 0x90, 0x90, 0x90, 0xE0,
        0xF0, 0x80, 0xF0, 0x80, 0xF0,
        0xF0, 0x80, 0xF0, 0x80, 0x80,
    ]
}

/// The font table as a vector.
fn font_data() -> (r: Vec<u8>)
    ensures
        r@ == spec_font(),
{
    let mut v: Vec<u8> = Vec::new();
    v.push(0xF0); v.push(0x90); v.push(0x90); v.push(0x90); v.push(0xF0);
    v.push(0x20); v.push(0x60); v.push(0x20); v.push(0x20); v.push(0x70);
    v.push(0xF0); v.push(0x10); v.push(0xF0); v.push(0x80); v.push(0xF0);
    v.push(0xF0); v.push(0x10); v.push(0xF0); v.push(0x10); v.push(0xF0);
    v.push(0x90); v.push(0x90); v.push(0xF0); v.push(0x10); v.push(0x10);
    v.push(0xF0); v.push(0x80); v.push(0xF0); v.push(0x10); v.push(0xF0);
    v.push(0xF0); v.push(0x80); v.push(0xF0); v.push(0x90); v.push(0xF0);
    v.push(0xF0); v.push(0x10); v.push(0x20); v.push(0x40); v.push(0x40);
    v.push(0xF0); v.push(0x90); v.push(0xF0); v.push(0x90); v.push(0xF0);
    v.push(0xF0); v.push(0x90); v.push(0xF0); v.push(0x10); v.push(0xF0);
    v.push(0xF0); v.push(0x90); v.push(0xF0); v.push(0x90); v.push(0x90);
    v.push(0xE0); v.push(0x90); v.push(0xE0); v.push(0x90); v.push(0xE0);
    v.push(0xF0); v.push(0x80); v.push(0x80); v.push(0x80); v.push(0xF0);
    v.push(0xE0); v.push(0x90); v.push(0x90); v.push(0x90); v.push(0xE0);
    v.push(0xF0); v.push(0x80); v.push(0xF0); v.push(0x80); v.push(0xF0);
    v.push(0xF0); v.push(0x80); v.push(0xF0); v.push(0x80); v.push(0x80);
    assert(v@ =~= spec_font());
    v
}

/// Memory as freshly initialized: the font table followed by zeroes.
fn init_mem() -> (r: Vec<u8>)
    ensures
        r@.len() == 4096,
        r@.subrange(0, 80) == spec_font(),
        forall|a: int| 80 <= a < 4096 ==> r@[a] == 0,
{
    let mut mem = font_data();
    assert(mem@.subrange(0, 80) =~= spec_font());
    while mem.len() < 4096
        invariant
            80 <= mem@.len() <= 4096,
            mem@.subrange(0, 80) == spec_font(),
            forall|a: int| 80 <= a < mem@.len() ==> mem@[a] == 0,
        decreases 4096 - mem@.len(),
    {
        mem.push(0);
        assert(mem@.subrange(0, 80) =~= spec_font());
    }
    mem
}

/// One fetched instruction word: two consecutive bytes at the program
/// counter, big-endian.
pub open spec fn spec_fetch_word(m: MachineModel) -> u16 {
    (m.mem[m.pc as int] * 256 + m.mem[m.pc as int + 1]) as u16
}

proof fn lemma_be_word(hi: u8, lo: u8)
    by (bit_vector)
    ensures
        ((hi as u16) << 8) | (lo as u16) == hi as u16 * 256 + lo as u16,
{
}

/// The whole machine: memory, registers, timers, program counter, call
/// stack, frame buffer and the legacy-shift dialect flag.
pub struct Chip8Interpreter {
    registers_v: Vec<u8>,
    register_i: u16,
    delay_timer: u8,
    sound_timer: u8,
    register_pc: u16,
    mem: Vec<u8>,
    frame_buffer: Vec<bool>,
    stack: Vec<u16>,
    old_shift: bool,
}

impl View for Chip8Interpreter {
    type V = MachineModel;

    closed spec fn view(&self) -> MachineModel {
        MachineModel {
            mem: self.mem@,
            v: self.registers_v@,
            i: self.register_i,
            pc: self.register_pc,
            delay: self.delay_timer,
            sound: self.sound_timer,
            stack: self.stack@,
            fb: self.frame_buffer@,
            old_shift: self.old_shift,
        }
    }
}

impl Chip8Interpreter {
    /// A freshly initialized machine: font table preloaded, registers
    /// zeroed, program counter at the first loadable address, and the
    /// legacy-shift dialect fixed for the machine's lifetime.
    pub fn new(old_shift: bool) -> (r: Chip8Interpreter)
        ensures
            r@.wf(),
            r@.mem.subrange(0, 80) == spec_font(),
            forall|a: int| 80 <= a < 4096 ==> r@.mem[a] == 0,
            forall|j: int| 0 <= j < 16 ==> r@.v[j] == 0,
            r@.i == 0,
            r@.pc == 0x200,
            r@.delay == 0,
            r@.sound == 0,
            r@.stack.len() == 0,
            forall|p: int| 0 <= p < 2048 ==> !r@.fb[p],
            r@.old_shift == old_shift,
    {
        let mem = init_mem();
        let mut registers_v: Vec<u8> = Vec::new();
        while registers_v.len() < 16
            invariant
                registers_v@.len() <= 16,
                forall|j: int| 0 <= j < registers_v@.len() ==> registers_v@[j] == 0,
            decreases 16 - registers_v@.len(),
        {
            registers_v.push(0);
        }
        let mut frame_buffer: Vec<bool> = Vec::new();
        while frame_buffer.len() < 2048
            invariant
                frame_buffer@.len() <= 2048,
                forall|p: int| 0 <= p < frame_buffer@.len() ==> !frame_buffer@[p],
            decreases 2048 - frame_buffer@.len(),
        {
            frame_buffer.push(false);
        }
        Chip8Interpreter {
            registers_v,
            register_i: 0,
            delay_timer: 0,
            sound_timer: 0,
            register_pc: 0x200,
            mem,
            frame_buffer,
            stack: Vec::new(),
            old_shift,
        }
    }

    /// Memory after copying a program image verbatim into the loadable
    /// region starting at 0x200.
    pub open spec fn spec_load(mem: Seq<u8>, rom: Seq<u8>) -> Seq<u8> {
        Seq::new(
            mem.len(),
            |a: int|
                if 0x200 <= a < 0x200 + rom.len() {
                    rom[a - 0x200]
                } else {
                    mem[a]
                },
        )
    }

    /// Loading touches nothing below the first loadable address: the font
    /// table, preloaded at the bottom of memory, is never overwritten.
    pub proof fn lemma_load_preserves_low_memory(mem: Seq<u8>, rom: Seq<u8>)
        requires
            mem.len() == 4096,
        ensures
            Self::spec_load(mem, rom).subrange(0, 0x200) == mem.subrange(0, 0x200),
    {
        assert(Self::spec_load(mem, rom).subrange(0, 0x200) =~= mem.subrange(0, 0x200));
    }

    /// Copy a program image into the loadable region. An image longer than
    /// the region is rejected whole: the machine is not touched on that
    /// path. Addresses below 0x200 (the font region among them) are never
    /// written.
    pub fn load_rom(&mut self, rom: &Vec<u8>) -> (r: Result<(), Chip8Error>)
        requires
            old(self)@.wf(),
        ensures
            final(self)@.wf(),
            rom@.len() > 4096 - 0x200 ==> r == Err::<(), Chip8Error>(Chip8Error::ImageTooLarge)
                && final(self)@ == old(self)@,
            rom@.len() <= 4096 - 0x200 ==> r == Ok::<(), Chip8Error>(()) && final(self)@
                == (MachineModel { mem: Self::spec_load(old(self)@.mem, rom@), ..old(self)@ }),
    {
        if rom.len() > 4096 - 0x200 {
            return Err(Chip8Error::ImageTooLarge);
        }
        let ghost mem0 = self.mem@;
        let mut idx: usize = 0;
        while idx < rom.len()
            invariant
                idx <= rom@.len(),
                rom@.len() <= 4096 - 0x200,
                self.mem@.len() == 4096,
                mem0.len() == 4096,
                forall|a: int|
                    0 <= a < 4096 ==> self.mem@[a] == if 0x200 <= a < 0x200 + idx {
                        rom@[a - 0x200]
                    } else {
                        mem0[a]
                    },
                self.registers_v@ == old(self)@.v,
                self.register_i == old(self)@.i,
                self.delay_timer == old(self)@.delay,
                self.sound_timer == old(self)@.sound,
                self.register_pc == old(self)@.pc,
                self.frame_buffer@ == old(self)@.fb,
                self.stack@ == old(self)@.stack,
                self.old_shift == old(self)@.old_shift,
                mem0 == old(self)@.mem,
            decreases rom@.len() - idx,
        {
            let byte = rom[idx];
            self.mem.set(0x200 + idx, byte);
            idx = idx + 1;
        }
        assert(self.mem@ =~= Self::spec_load(mem0, rom@));
        Ok(())
    }

    /// Read the two consecutive bytes at the program counter big-endian into
    /// one 16-bit word and advance the program counter by 2.
    pub fn fetch(&mut self) -> (word: u16)
        requires
            old(self)@.wf(),
            old(self)@.pc + 1 < 4096,
        ensures
            word == spec_fetch_word(old(self)@),
            final(self)@ == (MachineModel { pc: (old(self)@.pc + 2) as u16, ..old(self)@ }),
            final(self)@.wf(),
    {
        let addr = self.register_pc as usize;
        self.register_pc = self.register_pc + 2;
        let hi = self.mem[addr];
        let lo = self.mem[addr + 1];
        proof {
            lemma_be_word(hi, lo);
        }
        ((hi as u16) << 8) | (lo as u16)
    }

    pub fn pc(&self) -> (r: u16)
        ensures
            r == self@.pc,
    {
        self.register_pc
    }

    pub fn reg_i(&self) -> (r: u16)
        ensures
            r == self@.i,
    {
        self.register_i
    }

    pub fn reg_v(&self, x: u8) -> (r: u8)
        requires
            x < 16,
            self@.wf(),
        ensures
            r == self@.v[x as int],
    {
        self.registers_v[x as usize]
    }

    pub fn delay_timer(&self) -> (r: u8)
        ensures
            r == self@.delay,
    {
        self.delay_timer
    }

    pub fn sound_timer(&self) -> (r: u8)
        ensures
            r == self@.sound,
    {
        self.sound_timer
    }

    /// Arm the delay timer (the embedder's configuration surface; programs
    /// set it through their own instructions).
    pub fn set_delay_timer(&mut self, val: u8)
        ensures
            final(self)@ == (MachineModel { delay: val, ..old(self)@ }),
    {
        self.delay_timer = val;
    }

    /// Arm the sound timer.
    pub fn set_sound_timer(&mut self, val: u8)
        ensures
            final(self)@ == (MachineModel { sound: val, ..old(self)@ }),
    {
        self.sound_timer = val;
    }

    /// Write one byte of memory directly (the embedder's loading and test
    /// surface).
    pub fn write_mem(&mut self, addr: u16, byte: u8)
        requires
            old(self)@.wf(),
            addr < 4096,
        ensures
            final(self)@ == (MachineModel { mem: old(self)@.mem.update(addr as int, byte), ..old(self)@ }),
            final(self)@.wf(),
    {
        self.mem.set(addr as usize, byte);
    }

    /// Read one byte of memory.
    pub fn read_mem(&self, addr: u16) -> (r: u8)
        requires
            self@.wf(),
            addr < 4096,
        ensures
            r == self@.mem[addr as int],
    {
        self.mem[addr as usize]
    }

    /// The frame buffer as a read-only snapshot for a render sink: 2048
    /// pixels, row-major, 64 per row.
    pub fn frame_buffer(&self) -> (r: &Vec<bool>)
        ensures
            r@ == self@.fb,
    {
        &self.frame_buffer
    }

    /// One pixel of the frame buffer.
    pub fn pixel(&self, row: usize, col: usize) -> (r: bool)
        requires
            self@.wf(),
            row < 32,
            col < 64,
        ensures
            r == self@.fb[row as int * 64 + col as int],
    {
        self.frame_buffer[row * 64 + col]
    }
}

/// What executing one instruction does to the machine: the successor state,
/// paired with the outcome — still running, halted by the explicit halt
/// instruction, or stopped by a stack underflow (which leaves the state
/// untouched).
pub open spec fn spec_execute(m: MachineModel, inst: Instruction, rnd: u8) -> (MachineModel, Result<
    StepResult,
    Chip8Error,
>) {
    match inst {
        Instruction::End(_) => (m, Ok(StepResult::Halted)),
        Instruction::I00E0(_) => (
            MachineModel { fb: Seq::new(2048, |p: int| false), ..m },
            Ok(StepResult::Running),
        ),
        Instruction::I00EE(_) => if m.stack.len() == 0 {
            (m, Err(Chip8Error::StackUnderflow))
        } else {
            (
                MachineModel { pc: m.stack.last(), stack: m.stack.drop_last(), ..m },
                Ok(StepResult::Running),
            )
        },
        Instruction::I1NNN(op) => (MachineModel { pc: op.nnn, ..m }, Ok(StepResult::Running)),
        Instruction::I2NNN(op) => (
            MachineModel { stack: m.stack.push(m.pc), pc: op.nnn, ..m },
            Ok(StepResult::Running),
        ),
        Instruction::I3XNN(op) => (
            MachineModel {
                pc: if m.v[op.x as int] == op.kk {
                    (m.pc + 2) as u16
                } else {
                    m.pc
                },
                ..m
            },
            Ok(StepResult::Running),
        ),
        Instruction::I4XNN(op) => (
            MachineModel {
                pc: if m.v[op.x as int] != op.kk {
                    (m.pc + 2) as u16
                } else {
                    m.pc
                },
                ..m
            },
            Ok(StepResult::Running),
        ),
        Instruction::I5XY0(op) => (
            MachineModel {
                pc: if m.v[op.x as int] == m.v[op.y as int] {
                    (m.pc + 2) as u16
                } else {
                    m.pc
                },
                ..m
            },
            Ok(StepResult::Running),
        ),
        Instruction::I6XNN(op) => (
            MachineModel { v: m.v.update(op.x as int, op.kk), ..m },
            Ok(StepResult::Running),
        ),
        Instruction::I7XNN(op) => (
            MachineModel { v: m.v.update(op.x as int, m.v[op.x as int].wrapping_add(op.kk)), ..m },
            Ok(StepResult::Running),
        ),
        Instruction::I8XY0(op) => (
            MachineModel { v: m.v.update(op.x as int, m.v[op.y as int]), ..m },
            Ok(StepResult::Running),
        ),
        Instruction::I8XY1(op) => (
            MachineModel { v: m.v.update(op.x as int, m.v[op.x as int] | m.v[op.y as int]), ..m },
            Ok(StepResult::Running),
        ),
        Instruction::I8XY2(op) => (
            MachineModel { v: m.v.update(op.x as int, m.v[op.x as int] & m.v[op.y as int]), ..m },
            Ok(StepResult::Running),
        ),
        Instruction::I8XY3(op) => (
            MachineModel { v: m.v.update(op.x as int, m.v[op.x as int] ^ m.v[op.y as int]), ..m },
            Ok(StepResult::Running),
        ),
        Instruction::I8XY4(op) => {
            let a = m.v[op.x as int];
            let b = m.v[op.y as int];
            let v2 = if a + b > 255 {
                m.v.update(op.x as int, (a + b - 256) as u8).update(15, 1u8)
            } else {
                m.v.update(op.x as int, (a + b) as u8).update(15, 0u8)
            };
            (MachineModel { v: v2, ..m }, Ok(StepResult::Running))
        },
        Instruction::I8XY5(op) => {
            let a = m.v[op.x as int];
            let b = m.v[op.y as int];
            let v2 = if a >= b {
                m.v.update(op.x as int, (a - b) as u8).update(15, 1u8)
            } else {
                m.v.update(op.x as int, (256 + a - b) as u8).update(15, 0u8)
            };
            (MachineModel { v: v2, ..m }, Ok(StepResult::Running))
        },
        Instruction::I8XY6(op) => {
            let src = if m.old_shift {
                m.v[op.y as int]
            } else {
                m.v[op.x as int]
            };
            let v2 = m.v.update(op.x as int, (src / 2) as u8).update(15, src & 1);
            (MachineModel { v: v2, ..m }, Ok(StepResult::Running))
        },
        Instruction::I8XY7(op) => {
            let a = m.v[op.y as int];
            let b = m.v[op.x as int];
            let v2 = if a >= b {
                m.v.update(op.x as int, (a - b) as u8).update(15, 1u8)
            } else {
                m.v.update(op.x as int, (256 + a - b) as u8).update(15, 0u8)
            };
            (MachineModel { v: v2, ..m }, Ok(StepResult::Running))
        },
        Instruction::I8XYE(op) => {
            let src = if m.old_shift {
                m.v[op.y as int]
            } else {
                m.v[op.x as int]
            };
            let v2 = m.v.update(op.x as int, ((src * 2) % 256) as u8).update(15, src >> 7);
            (MachineModel { v: v2, ..m }, Ok(StepResult::Running))
        },
        Instruction::I9XY0(op) => (
            MachineModel {
                pc: if m.v[op.x as int] != m.v[op.y as int] {
                    (m.pc + 2) as u16
                } else {
                    m.pc
                },
                ..m
            },
            Ok(StepResult::Running),
        ),
        Instruction::IANNN(op) => (MachineModel { i: op.nnn, ..m }, Ok(StepResult::Running)),
        Instruction::IBNNN(op) => (
            MachineModel { pc: (op.nnn + m.v[0]) as u16, ..m },
            Ok(StepResult::Running),
        ),
        Instruction::ICXNN(op) => (
            MachineModel { v: m.v.update(op.x as int, rnd & op.kk), ..m },
            Ok(StepResult::Running),
        ),
        Instruction::IDXYN(op) => {
            let xc = m.v[op.x as int] & 63;
            let yc = m.v[op.y as int] & 31;
            let col = spec_draw_collision(m.fb, m.mem, m.i as int, xc as int, yc as int, op.n as int);
            (
                MachineModel {
                    fb: spec_draw_fb(m.fb, m.mem, m.i as int, xc as int, yc as int, op.n as int),
                    v: m.v.update(
                        15,
                        if col {
                            1u8
                        } else {
                            0u8
                        },
                    ),
                    ..m
                },
                Ok(StepResult::Running),
            )
        },
    }
}

/// A frame buffer with every pixel off.
fn blank_frame_buffer() -> (r: Vec<bool>)
    ensures
        r@.len() == 2048,
        forall|p: int| 0 <= p < 2048 ==> !r@[p],
{
    let mut frame_buffer: Vec<bool> = Vec::new();
    while frame_buffer.len() < 2048
        invariant
            frame_buffer@.len() <= 2048,
            forall|p: int| 0 <= p < frame_buffer@.len() ==> !frame_buffer@[p],
        decreases 2048 - frame_buffer@.len(),
    {
        frame_buffer.push(false);
    }
    frame_buffer
}

impl Chip8Interpreter {
    /// Execute one already-classified instruction against the machine state.
    /// `rnd` is the byte drawn from the random source, consumed only by the
    /// random-AND instruction.
    pub fn execute(&mut self, inst: Instruction, rnd: u8) -> (r: Result<StepResult, Chip8Error>)
        requires
            old(self)@.wf(),
            inst.opcode().wf(),
            (inst is I3XNN || inst is I4XNN || inst is I5XY0 || inst is I9XY0) ==> old(self)@.pc + 2
                <= 0xFFFF,
            inst is IDXYN ==> old(self)@.i + inst.opcode().n <= 4096,
        ensures
            final(self)@ == spec_execute(old(self)@, inst, rnd).0,
            r == spec_execute(old(self)@, inst, rnd).1,
            final(self)@.wf(),
            final(self)@.mem == old(self)@.mem,
            final(self)@.delay == old(self)@.delay,
            final(self)@.sound == old(self)@.sound,
            final(self)@.old_shift == old(self)@.old_shift,
    {
        match inst {
            Instruction::End(_) => Ok(StepResult::Halted),
            Instruction::I00E0(_) => {
                self.frame_buffer = blank_frame_buffer();
                proof {
                    assert(self@.fb =~= Seq::new(2048, |p: int| false));
                }
                Ok(StepResult::Running)
            },
            Instruction::I00EE(_) => {
                match self.stack.pop() {
                    Some(addr) => {
                        self.register_pc = addr;
                        Ok(StepResult::Running)
                    },
                    None => Err(Chip8Error::StackUnderflow),
                }
            },
            Instruction::I1NNN(op) => {
                self.register_pc = op.nnn;
                Ok(StepResult::Running)
            },
            Instruction::I2NNN(op) => {
                self.stack.push(self.register_pc);
                self.register_pc = op.nnn;
                Ok(StepResult::Running)
            },
            Instruction::I3XNN(op) => {
                proof {
                    lemma_field_bounds(op.raw);
                }
                if self.registers_v[op.x as usize] == op.kk {
                    self.register_pc = self.register_pc + 2;
                }
                Ok(StepResult::Running)
            },
            Instruction::I4XNN(op) => {
                proof {
                    lemma_field_bounds(op.raw);
                }
                if self.registers_v[op.x as usize] != op.kk {
                    self.register_pc = self.register_pc + 2;
                }
                Ok(StepResult::Running)
            },
            Instruction::I5XY0(op) => {
                proof {
                    lemma_field_bounds(op.raw);
                }
                if self.registers_v[op.x as usize] == self.registers_v[op.y as usize] {
                    self.register_pc = self.register_pc + 2;
                }
                Ok(StepResult::Running)
            },
            Instruction::I6XNN(op) => {
                proof {
                    lemma_field_bounds(op.raw);
                }
                self.registers_v.set(op.x as usize, op.kk);
                Ok(StepResult::Running)
            },
            Instruction::I7XNN(op) => {
                proof {
                    lemma_field_bounds(op.raw);
                }
                let cur = self.registers_v[op.x as usize];
                self.registers_v.set(op.x as usize, cur.wrapping_add(op.kk));
                Ok(StepResult::Running)
            },
            Instruction::I8XY0(op) => {
                proof {
                    lemma_field_bounds(op.raw);
                }
                let vy = self.registers_v[op.y as usize];
                self.registers_v.set(op.x as usize, vy);
                Ok(StepResult::Running)
            },
            Instruction::I8XY1(op) => {
                proof {
                    lemma_field_bounds(op.raw);
                }
                let vy = self.registers_v[op.y as usize];
                let vx = self.registers_v[op.x as usize];
                self.registers_v.set(op.x as usize, vx | vy);
                Ok(StepResult::Running)
            },
            Instruction::I8XY2(op) => {
                proof {
                    lemma_field_bounds(op.raw);
                }
                let vy = self.registers_v[op.y as usize];
                let vx = self.registers_v[op.x as usize];
                self.registers_v.set(op.x as usize, vx & vy);
                Ok(StepResult::Running)
            },
            Instruction::I8XY3(op) => {
                proof {
                    lemma_field_bounds(op.raw);
                }
                let vy = self.registers_v[op.y as usize];
                let vx = self.registers_v[op.x as usize];
                self.registers_v.set(op.x as usize, vx ^ vy);
                Ok(StepResult::Running)
            },
            Instruction::I8XY4(op) => {
                proof {
                    lemma_field_bounds(op.raw);
                }
                let (carry, sum) = add_carry(
                    self.registers_v[op.x as usize],
                    self.registers_v[op.y as usize],
                );
                self.registers_v.set(op.x as usize, sum);
                self.registers_v.set(15, carry);
                Ok(StepResult::Running)
            },
            Instruction::I8XY5(op) => {
                proof {
                    lemma_field_bounds(op.raw);
                }
                let (borrow, sub) = subtract_carry(
                    self.registers_v[op.x as usize],
                    self.registers_v[op.y as usize],
                );
                self.registers_v.set(op.x as usize, sub);
                self.registers_v.set(15, 1 - borrow);
                Ok(StepResult::Running)
            },
            Instruction::I8XY6(op) => {
                proof {
                    lemma_field_bounds(op.raw);
                }
                if self.old_shift {
                    let vy = self.registers_v[op.y as usize];
                    self.registers_v.set(op.x as usize, vy);
                }
                let mut vx = self.registers_v[op.x as usize];
                let carry = shift_right_carry(&mut vx);
                self.registers_v.set(op.x as usize, vx);
                self.registers_v.set(15, carry);
                Ok(StepResult::Running)
            },
            Instruction::I8XY7(op) => {
                proof {
                    lemma_field_bounds(op.raw);
                }
                let (borrow, sub) = subtract_carry(
                    self.registers_v[op.y as usize],
                    self.registers_v[op.x as usize],
                );
                self.registers_v.set(op.x as usize, sub);
                self.registers_v.set(15, 1 - borrow);
                Ok(StepResult::Running)
            },
            Instruction::I8XYE(op) => {
                proof {
                    lemma_field_bounds(op.raw);
                }
                if self.old_shift {
                    let vy = self.registers_v[op.y as usize];
                    self.registers_v.set(op.x as usize, vy);
                }
                let mut vx = self.registers_v[op.x as usize];
                let carry = shift_left_carry(&mut vx);
                self.registers_v.set(op.x as usize, vx);
                self.registers_v.set(15, carry);
                Ok(StepResult::Running)
            },
            Instruction::I9XY0(op) => {
                proof {
                    lemma_field_bounds(op.raw);
                }
                if self.registers_v[op.x as usize] != self.registers_v[op.y as usize] {
                    self.register_pc = self.register_pc + 2;
                }
                Ok(StepResult::Running)
            },
            Instruction::IANNN(op) => {
                proof {
                    lemma_field_bounds(op.raw);
                }
                self.register_i = op.nnn;
                Ok(StepResult::Running)
            },
            Instruction::IBNNN(op) => {
                proof {
                    lemma_field_bounds(op.raw);
                }
                self.register_pc = op.nnn + (self.registers_v[0] as u16);
                Ok(StepResult::Running)
            },
            Instruction::ICXNN(op) => {
                proof {
                    lemma_field_bounds(op.raw);
                }
                self.registers_v.set(op.x as usize, rnd & op.kk);
                Ok(StepResult::Running)
            },
            Instruction::IDXYN(op) => {
                proof {
                    lemma_field_bounds(op.raw);
                }
                let x_cor = self.registers_v[op.x as usize] & 63;
                let y_cor = self.registers_v[op.y as usize] & 31;
                proof {
                    let vx: u8 = self.registers_v@[op.x as int];
                    let vy: u8 = self.registers_v@[op.y as int];
                    assert(vx & 63 < 64) by (bit_vector);
                    assert(vy & 31 < 32) by (bit_vector);
                }
                let collision = display(
                    &mut self.frame_buffer,
                    &self.mem,
                    self.register_i,
                    x_cor,
                    y_cor,
                    op.n,
                );
                self.registers_v.set(15, collision);
                Ok(StepResult::Running)
            },
        }
    }
}

/// One fetch-decode-execute cycle on the model: read the word at the program
/// counter big-endian, advance the program counter by 2, classify the word,
/// and execute it. An unrecognized word is a fatal decode failure carrying
/// the word and the already-advanced program counter; it touches nothing
/// else.
pub open spec fn spec_cycle(m: MachineModel, rnd: u8) -> (MachineModel, Result<
    StepResult,
    Chip8Error,
>) {
    let word = spec_fetch_word(m);
    let m2 = MachineModel { pc: (m.pc + 2) as u16, ..m };
    match spec_decode(word) {
        Some(inst) => spec_execute(m2, inst, rnd),
        None => (m2, Err(Chip8Error::DecodeFailure { word, pc: m2.pc })),
    }
}

/// Relies on rand::random: a uniformly distributed byte from the thread-local
/// generator. Nothing can be promised of the value beyond its type.
#[verifier::external_body]
pub(crate) fn random_byte() -> u8 {
    rand::random::<u8>()
}

impl Chip8Interpreter {
    /// Classify a fetched word, attaching the fatal diagnostic context (the
    /// offending word and the current program counter) on failure.
    pub fn decode(&self, raw_opcode: u16) -> (r: Result<Instruction, Chip8Error>)
        ensures
            spec_decode(raw_opcode) matches Some(inst) ==> r == Ok::<Instruction, Chip8Error>(inst),
            spec_decode(raw_opcode) is None ==> r == Err::<Instruction, Chip8Error>(
                Chip8Error::DecodeFailure { word: raw_opcode, pc: self@.pc },
            ),
    {
        match Instruction::from_raw_opcode(raw_opcode) {
            Ok(inst) => Ok(inst),
            Err(_) => Err(Chip8Error::DecodeFailure { word: raw_opcode, pc: self.register_pc }),
        }
    }

    /// One fetch-decode-execute cycle, with the random source's draw handed
    /// in. Deterministic: the machine afterwards is exactly what `spec_cycle`
    /// says.
    pub fn exec_with(&mut self, rnd: u8) -> (r: Result<StepResult, Chip8Error>)
        requires
            old(self)@.wf(),
            old(self)@.pc + 1 < 4096,
            spec_decode(spec_fetch_word(old(self)@)) matches Some(Instruction::IDXYN(op))
                ==> old(self)@.i + op.n <= 4096,
        ensures
            final(self)@ == spec_cycle(old(self)@, rnd).0,
            r == spec_cycle(old(self)@, rnd).1,
            final(self)@.wf(),
            final(self)@.mem == old(self)@.mem,
            final(self)@.delay == old(self)@.delay,
            final(self)@.sound == old(self)@.sound,
            final(self)@.old_shift == old(self)@.old_shift,
    {
        let word = self.fetch();
        let inst = match self.decode(word) {
            Ok(inst) => inst,
            Err(e) => {
                return Err(e);
            },
        };
        proof {
            crate::opcode::lemma_spec_opcode_wf(word);
            assert(inst.opcode() == spec_opcode(word));
        }
        self.execute(inst, rnd)
    }

    /// One fetch-decode-execute cycle, drawing from the random source. Only
    /// the random-AND instruction consumes the draw: for every other fetched
    /// word the cycle is deterministic.
    pub fn exec(&mut self) -> (r: Result<StepResult, Chip8Error>)
        requires
            old(self)@.wf(),
            old(self)@.pc + 1 < 4096,
            spec_decode(spec_fetch_word(old(self)@)) matches Some(Instruction::IDXYN(op))
                ==> old(self)@.i + op.n <= 4096,
        ensures
            exists|rnd: u8|
                final(self)@ == #[trigger] spec_cycle(old(self)@, rnd).0 && r == spec_cycle(
                    old(self)@,
                    rnd,
                ).1,
            final(self)@.wf(),
            final(self)@.mem == old(self)@.mem,
            final(self)@.delay == old(self)@.delay,
            final(self)@.sound == old(self)@.sound,
            final(self)@.old_shift == old(self)@.old_shift,
    {
        let rnd = random_byte();
        let r = self.exec_with(rnd);
        proof {
            assert(self@ == spec_cycle(old(self)@, rnd).0 && r == spec_cycle(old(self)@, rnd).1);
        }
        r
    }
}

/// Add with carry: the pair (carry out of the 9th bit, 8-bit sum).
pub fn add_carry(a: u8, b: u8) -> (r: (u8, u8))
    ensures
        a + b > 255 ==> r.0 == 1 && r.1 == a + b - 256,
        a + b <= 255 ==> r.0 == 0 && r.1 == a + b,
{
    let sum_16 = (a as u16) + (b as u16);
    proof {
        let s: u16 = sum_16;
        assert(s >> 8 == s / 256 && s & 0xFF == s % 256) by (bit_vector);
        if a + b > 255 {
            lemma_fundamental_div_mod_converse(s as int, 256, 1, s - 256);
        } else {
            lemma_fundamental_div_mod_converse(s as int, 256, 0, s as int);
        }
    }
    ((sum_16 >> 8) as u8, (sum_16 & 0xFF) as u8)
}

/// Subtract with borrow: the pair (borrow flag, difference wrapped modulo
/// 256 on borrow).
pub fn subtract_carry(a: u8, b: u8) -> (r: (u8, u8))
    ensures
        a >= b ==> r.0 == 0 && r.1 == a - b,
        a < b ==> r.0 == 1 && r.1 == 256 + a - b,
{
    if a >= b {
        (0, a - b)
    } else {
        (1, ((256u16 + (a as u16)) - (b as u16)) as u8)
    }
}

/// Shift left by one; the returned carry is the high bit shifted out.
pub fn shift_left_carry(val: &mut u8) -> (carry: u8)
    ensures
        carry == *old(val) >> 7,
        carry == if *old(val) >= 128 { 1u8 } else { 0u8 },
        *final(val) == (*old(val) * 2) % 256,
{
    let shifted_out = *val >> 7;
    proof {
        let v: u8 = *val;
        assert(v >> 7 == if v >= 128 { 1u8 } else { 0u8 } && (v << 1) == (v * 2) % 256)
            by (bit_vector);
    }
    *val = *val << 1;
    shifted_out
}

/// Shift right by one; the returned carry is the low bit shifted out.
pub fn shift_right_carry(val: &mut u8) -> (carry: u8)
    ensures
        carry == *old(val) & 1,
        carry == if *old(val) % 2 == 1 { 1u8 } else { 0u8 },
        *final(val) == *old(val) / 2,
{
    let shifted_out = *val & 0x1;
    proof {
        let v: u8 = *val;
        assert((v & 1 == v % 2) && (v >> 1 == v / 2)) by (bit_vector);
    }
    *val = *val >> 1;
    shifted_out
}

} // verus!

