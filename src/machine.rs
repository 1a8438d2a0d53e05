//! The mathematical model of the machine and the meaning of each instruction.
//!
//! Addresses wrap around the 4096-byte memory: every access at `I + k` or at
//! `pc + 1` is taken modulo the memory size, and so is every new program counter.
//! Sprite coordinates wrap around the edges of the display.
use vstd::prelude::*;
use crate::instruction::{decoded, Instruction};

verus! {

pub const MEMORY_SIZE: usize = 4096;
pub const PROGRAM_START: usize = 0x200;
pub const REGISTER_COUNT: usize = 16;
pub const FLAG_REGISTER: usize = 15;
pub const STACK_CAPACITY: usize = 16;
pub const KEY_COUNT: usize = 16;
pub const SCREEN_WIDTH: usize = 64;
pub const SCREEN_HEIGHT: usize = 32;
pub const DISPLAY_SIZE: usize = 2048;
pub const GLYPH_SIZE: usize = 5;
pub const FONT_SIZE: usize = 80;

/// Where the execution engine stands between two steps.
#[derive(Clone, Copy, Debug, PartialEq, Eq)]
pub enum ExecState {
    /// Fetching and executing instructions.
    Running,
    /// Suspended by `Fx0A` until a key goes down; `pressed` holds the first key
    /// that went down since.
    AwaitingKey { target: u8, pressed: Option<u8> },
    /// Stopped for good by a fatal condition.
    Halted,
}

/// What one step reports to the host.
#[derive(Clone, Copy, Debug, PartialEq, Eq)]
pub enum StepOutcome {
    Continue,
    /// The display buffer changed (a clear or a sprite draw).
    DisplayDirty,
    /// The machine had halted before this step.
    Halted,
    /// The word fetched is no instruction; the machine halts.
    UnknownOpcode(u16),
    /// A call with sixteen return addresses already stacked; the machine halts.
    StackOverflow,
    /// A return with no return address stacked; the machine halts.
    StackUnderflow,
}

/// The recoverable errors, reported without changing the machine.
#[derive(Clone, Copy, Debug, PartialEq, Eq)]
pub enum ChipError {
    /// The program image does not fit between the program start and the end of memory.
    ImageTooLarge,
    /// A key index above 15.
    KeyIndexOutOfRange,
}

/// The whole state of a machine.
pub struct ChipView {
    pub memory: Seq<u8>,
    pub v: Seq<u8>,
    pub i: u16,
    pub pc: u16,
    /// The return addresses, the most recent last.
    pub stack: Seq<u16>,
    pub delay_timer: u8,
    pub sound_timer: u8,
    /// Row-major, one byte per pixel.
    pub display: Seq<u8>,
    pub keys: Seq<bool>,
    pub state: ExecState,
}

/// The glyphs of the sixteen hexadecimal digits, five rows each.
pub open spec fn font() -> Seq<u8> {
    seq![
        0xF0u8, 0x90, 0x90, 0x90, 0xF0, 0x20, 0x60, 0x20, 0x20, 0x70,
        0xF0, 0x10, 0xF0, 0x80, 0xF0, 0xF0, 0x10, 0xF0, 0x10, 0xF0,
        0x90, 0x90, 0xF0, 0x10, 0x10, 0xF0, 0x80, 0xF0, 0x10, 0xF0,
        0xF0, 0x80, 0xF0, 0x90, 0xF0, 0xF0, 0x10, 0x20, 0x40, 0x40,
        0xF0, 0x90, 0xF0, 0x90, 0xF0, 0xF0, 0x90, 0xF0, 0x10, 0xF0,
        0xF0, 0x90, 0xF0, 0x90, 0x90, 0xE0, 0x90, 0xE0, 0x90, 0xE0,
        0xF0, 0x80, 0x80, 0x80, 0xF0, 0xE0, 0x90, 0x90, 0x90, 0xE0,
        0xF0, 0x80, 0xF0, 0x80, 0xF0, 0xF0, 0x80, 0xF0, 0x80, 0x80,
    ]
}

impl ChipView {
    pub open spec fn wf(self) -> bool {
        &&& self.memory.len() == MEMORY_SIZE
        &&& self.v.len() == REGISTER_COUNT
        &&& self.pc < MEMORY_SIZE
        &&& self.stack.len() <= STACK_CAPACITY
        &&& forall|k: int| 0 <= k < self.stack.len() ==> self.stack[k] < MEMORY_SIZE
        &&& self.display.len() == DISPLAY_SIZE
        &&& forall|p: int| 0 <= p < DISPLAY_SIZE ==> #[trigger] self.display[p] <= 1
        &&& self.keys.len() == KEY_COUNT
        &&& match self.state {
            ExecState::AwaitingKey { target, pressed } => target < 16 && match pressed {
                Some(k) => k < 16,
                None => true,
            },
            _ => true,
        }
    }

    pub open spec fn halt(self) -> ChipView {
        ChipView { state: ExecState::Halted, ..self }
    }

    pub open spec fn set_v(self, x: int, val: u8) -> ChipView {
        ChipView { v: self.v.update(x, val), ..self }
    }

    pub open spec fn with_pc(self, pc: u16) -> ChipView {
        ChipView { pc, ..self }
    }
}

/// A fresh machine: the font at address 0, memory otherwise zero, the program
/// counter at the program start, everything else zero or empty.
pub open spec fn initial() -> ChipView {
    ChipView {
        memory: Seq::new(MEMORY_SIZE as nat, |a: int| if a < FONT_SIZE { font()[a] } else { 0u8 }),
        v: Seq::new(REGISTER_COUNT as nat, |k: int| 0u8),
        i: 0,
        pc: PROGRAM_START as u16,
        stack: Seq::empty(),
        delay_timer: 0,
        sound_timer: 0,
        display: Seq::new(DISPLAY_SIZE as nat, |p: int| 0u8),
        keys: Seq::new(KEY_COUNT as nat, |k: int| false),
        state: ExecState::Running,
    }
}

/// The memory after copying `image` to the program start.
pub open spec fn loaded(memory: Seq<u8>, image: Seq<u8>) -> Seq<u8> {
    Seq::new(
        memory.len(),
        |a: int|
            if PROGRAM_START <= a < PROGRAM_START + image.len() {
                image[a - PROGRAM_START]
            } else {
                memory[a]
            },
    )
}

/// Loading an image: rejected, with nothing changed, when it does not fit.
pub open spec fn load_spec(m: ChipView, image: Seq<u8>) -> (ChipView, Result<(), ChipError>) {
    if image.len() > MEMORY_SIZE - PROGRAM_START {
        (m, Err(ChipError::ImageTooLarge))
    } else {
        (ChipView { memory: loaded(m.memory, image), ..m }, Ok(()))
    }
}

/// Setting key `index` up or down. A key that goes down while the machine awaits
/// a key, and none has gone down yet, is latched for the next step.
pub open spec fn set_key_spec(m: ChipView, index: int, pressed: bool) -> (ChipView, Result<(), ChipError>) {
    if index >= KEY_COUNT {
        (m, Err(ChipError::KeyIndexOutOfRange))
    } else {
        let state = match m.state {
            ExecState::AwaitingKey { target, pressed: None } =>
                if pressed && !m.keys[index] {
                    ExecState::AwaitingKey { target, pressed: Some(index as u8) }
                } else {
                    m.state
                },
            _ => m.state,
        };
        (ChipView { keys: m.keys.update(index, pressed), state, ..m }, Ok(()))
    }
}

/// Each timer goes down by one unless it is zero.
pub open spec fn tick_spec(m: ChipView) -> ChipView {
    ChipView {
        delay_timer: if m.delay_timer > 0 { (m.delay_timer - 1) as u8 } else { 0 },
        sound_timer: if m.sound_timer > 0 { (m.sound_timer - 1) as u8 } else { 0 },
        ..m
    }
}

pub open spec fn wrap_addr(a: int) -> u16 {
    (a % (MEMORY_SIZE as int)) as u16
}

/// The address of the instruction after the one at `pc`.
pub open spec fn next_pc(pc: u16) -> u16 {
    wrap_addr(pc + 2)
}

/// The address after the current instruction, skipping the following one when `cond` holds.
pub open spec fn skip_pc(pc: u16, cond: bool) -> u16 {
    if cond {
        wrap_addr(pc + 4)
    } else {
        next_pc(pc)
    }
}

/// The big-endian word at address `a`.
pub open spec fn word_at(memory: Seq<u8>, a: int) -> u16 {
    (memory[a] as int * 256 + memory[(a + 1) % (MEMORY_SIZE as int)] as int) as u16
}

/// The big-endian word at the program counter.
pub open spec fn fetch(m: ChipView) -> u16 {
    word_at(m.memory, m.pc as int)
}

/// Whether register value `k` names a key that is down; values above 15 name no key.
pub open spec fn key_down(m: ChipView, k: u8) -> bool {
    k < KEY_COUNT && m.keys[k as int]
}

/// Pixel `col` (0 leftmost) of a sprite row `byte`.
pub open spec fn sprite_pixel(byte: u8, col: u8) -> u8 {
    (byte >> (7 - col) as u8) & 1u8
}

/// The sprite row that display row `r` receives from a sprite drawn at row `vy`,
/// when it is one of the sprite's `n` rows.
pub open spec fn sprite_row(r: int, vy: u8) -> int {
    (r + 256 - vy) % (SCREEN_HEIGHT as int)
}

/// The sprite column that display column `c` receives from a sprite drawn at column `vx`.
pub open spec fn sprite_col(c: int, vx: u8) -> int {
    (c + 256 - vx) % (SCREEN_WIDTH as int)
}

/// Whether display cell `p` lies under an `n`-row sprite drawn at `(vx, vy)`.
pub open spec fn covered(p: int, vx: u8, vy: u8, n: u8) -> bool {
    sprite_row(p / SCREEN_WIDTH as int, vy) < n && sprite_col(p % SCREEN_WIDTH as int, vx) < 8
}

/// The bit that a sprite read from memory at `i` puts on display cell `p`.
pub open spec fn sprite_bit(memory: Seq<u8>, i: u16, vx: u8, vy: u8, n: u8, p: int) -> u8 {
    if covered(p, vx, vy, n) {
        sprite_pixel(
            memory[(i + sprite_row(p / SCREEN_WIDTH as int, vy)) % (MEMORY_SIZE as int)],
            sprite_col(p % SCREEN_WIDTH as int, vx) as u8,
        )
    } else {
        0
    }
}

/// The display after XOR-ing the sprite onto it.
pub open spec fn drawn(m: ChipView, vx: u8, vy: u8, n: u8) -> Seq<u8> {
    Seq::new(m.display.len(), |p: int| m.display[p] ^ sprite_bit(m.memory, m.i, vx, vy, n, p))
}

/// Whether the sprite turns some set pixel off.
pub open spec fn collides(m: ChipView, vx: u8, vy: u8, n: u8) -> bool {
    exists|p: int|
        0 <= p < m.display.len() && #[trigger] m.display[p] == 1 && sprite_bit(
            m.memory,
            m.i,
            vx,
            vy,
            n,
            p,
        ) == 1
}

pub open spec fn flag(b: bool) -> u8 {
    if b {
        1
    } else {
        0
    }
}

/// `Dxyn`.
pub open spec fn draw_spec(m: ChipView, vx: u8, vy: u8, n: u8) -> ChipView {
    ChipView {
        display: drawn(m, vx, vy, n),
        v: m.v.update(FLAG_REGISTER as int, flag(collides(m, vx, vy, n))),
        pc: next_pc(m.pc),
        ..m
    }
}

/// The operations of the `8xy_` family.
pub open spec fn arith_known(n: u8) -> bool {
    n <= 7 || n == 0xE
}

/// The value that `8xyn` writes to `VF`, if it writes one.
pub open spec fn arith_flag(n: u8, vx: u8, vy: u8) -> Option<u8> {
    if n == 4 {
        Some(flag(vx + vy > 255))
    } else if n == 5 {
        Some(flag(vx >= vy))
    } else if n == 6 {
        Some(vx % 2)
    } else if n == 7 {
        Some(flag(vy >= vx))
    } else if n == 0xE {
        Some(vx / 128)
    } else {
        None
    }
}

/// The value that `8xyn` writes to `Vx`.
pub open spec fn arith_result(n: u8, vx: u8, vy: u8) -> u8 {
    if n == 0 {
        vy
    } else if n == 1 {
        vx | vy
    } else if n == 2 {
        vx & vy
    } else if n == 3 {
        vx ^ vy
    } else if n == 4 {
        ((vx + vy) % 256) as u8
    } else if n == 5 {
        ((vx - vy + 256) % 256) as u8
    } else if n == 6 {
        vx / 2
    } else if n == 7 {
        ((vy - vx + 256) % 256) as u8
    } else {
        ((vx * 2) % 256) as u8
    }
}

/// The `8xy_` family. The flag is written first, so with `x == 15` the result wins.
pub open spec fn arith_spec(m: ChipView, ins: Instruction) -> (ChipView, StepOutcome) {
    let vx = m.v[ins.x as int];
    let vy = m.v[ins.y as int];
    if arith_known(ins.n) {
        let flagged = match arith_flag(ins.n, vx, vy) {
            Some(f) => m.set_v(FLAG_REGISTER as int, f),
            None => m,
        };
        (
            flagged.set_v(ins.x as int, arith_result(ins.n, vx, vy)).with_pc(next_pc(m.pc)),
            StepOutcome::Continue,
        )
    } else {
        (m.halt(), StepOutcome::UnknownOpcode(ins.code))
    }
}

/// The `Fx__` family.
pub open spec fn misc_spec(m: ChipView, ins: Instruction) -> (ChipView, StepOutcome) {
    let x = ins.x as int;
    let vx = m.v[x];
    let i = m.i as int;
    let next = next_pc(m.pc);
    if ins.nn == 0x07 {
        (m.set_v(x, m.delay_timer).with_pc(next), StepOutcome::Continue)
    } else if ins.nn == 0x0A {
        (
            ChipView { state: ExecState::AwaitingKey { target: ins.x, pressed: None }, ..m },
            StepOutcome::Continue,
        )
    } else if ins.nn == 0x15 {
        (ChipView { delay_timer: vx, pc: next, ..m }, StepOutcome::Continue)
    } else if ins.nn == 0x18 {
        (ChipView { sound_timer: vx, pc: next, ..m }, StepOutcome::Continue)
    } else if ins.nn == 0x1E {
        (ChipView { i: ((i + vx) % 65536) as u16, pc: next, ..m }, StepOutcome::Continue)
    } else if ins.nn == 0x29 {
        (ChipView { i: (vx * GLYPH_SIZE) as u16, pc: next, ..m }, StepOutcome::Continue)
    } else if ins.nn == 0x33 {
        let memory = m.memory.update(i % 4096, vx / 100).update((i + 1) % 4096, (vx / 10) % 10).update(
            (i + 2) % 4096,
            vx % 10,
        );
        (ChipView { memory, pc: next, ..m }, StepOutcome::Continue)
    } else if ins.nn == 0x55 {
        let memory = Seq::new(
            m.memory.len(),
            |a: int| if (a - i) % 4096 <= x { m.v[(a - i) % 4096] } else { m.memory[a] },
        );
        (ChipView { memory, pc: next, ..m }, StepOutcome::Continue)
    } else if ins.nn == 0x65 {
        let v = Seq::new(m.v.len(), |k: int| if k <= x { m.memory[(i + k) % 4096] } else { m.v[k] });
        (ChipView { v, pc: next, ..m }, StepOutcome::Continue)
    } else {
        (m.halt(), StepOutcome::UnknownOpcode(ins.code))
    }
}

/// Executing one decoded instruction on a running machine; `random` is the byte
/// that `Cxnn` masks.
pub open spec fn execute_spec(m: ChipView, ins: Instruction, random: u8) -> (ChipView, StepOutcome) {
    let x = ins.x as int;
    let vx = m.v[x];
    let vy = m.v[ins.y as int];
    let next = next_pc(m.pc);
    let unknown = (m.halt(), StepOutcome::UnknownOpcode(ins.code));
    if ins.family == 0 {
        if ins.code == 0x00E0 {
            (
                ChipView { display: Seq::new(DISPLAY_SIZE as nat, |p: int| 0u8), pc: next, ..m },
                StepOutcome::DisplayDirty,
            )
        } else if ins.code == 0x00EE {
            if m.stack.len() == 0 {
                (m.halt(), StepOutcome::StackUnderflow)
            } else {
                (ChipView { pc: m.stack.last(), stack: m.stack.drop_last(), ..m }, StepOutcome::Continue)
            }
        } else {
            unknown
        }
    } else if ins.family == 1 {
        (m.with_pc(ins.nnn), StepOutcome::Continue)
    } else if ins.family == 2 {
        if m.stack.len() >= STACK_CAPACITY {
            (m.halt(), StepOutcome::StackOverflow)
        } else {
            (ChipView { stack: m.stack.push(next), pc: ins.nnn, ..m }, StepOutcome::Continue)
        }
    } else if ins.family == 3 {
        (m.with_pc(skip_pc(m.pc, vx == ins.nn)), StepOutcome::Continue)
    } else if ins.family == 4 {
        (m.with_pc(skip_pc(m.pc, vx != ins.nn)), StepOutcome::Continue)
    } else if ins.family == 5 {
        if ins.n == 0 {
            (m.with_pc(skip_pc(m.pc, vx == vy)), StepOutcome::Continue)
        } else {
            unknown
        }
    } else if ins.family == 6 {
        (m.set_v(x, ins.nn).with_pc(next), StepOutcome::Continue)
    } else if ins.family == 7 {
        (m.set_v(x, ((vx + ins.nn) % 256) as u8).with_pc(next), StepOutcome::Continue)
    } else if ins.family == 8 {
        arith_spec(m, ins)
    } else if ins.family == 9 {
        if ins.n == 0 {
            (m.with_pc(skip_pc(m.pc, vx != vy)), StepOutcome::Continue)
        } else {
            unknown
        }
    } else if ins.family == 0xA {
        (ChipView { i: ins.nnn, pc: next, ..m }, StepOutcome::Continue)
    } else if ins.family == 0xB {
        (m.with_pc(wrap_addr(ins.nnn + m.v[0])), StepOutcome::Continue)
    } else if ins.family == 0xC {
        (m.set_v(x, random & ins.nn).with_pc(next), StepOutcome::Continue)
    } else if ins.family == 0xD {
        (draw_spec(m, vx, vy, ins.n), StepOutcome::DisplayDirty)
    } else if ins.family == 0xE {
        if ins.nn == 0x9E {
            (m.with_pc(skip_pc(m.pc, key_down(m, vx))), StepOutcome::Continue)
        } else if ins.nn == 0xA1 {
            (m.with_pc(skip_pc(m.pc, !key_down(m, vx))), StepOutcome::Continue)
        } else {
            unknown
        }
    } else {
        misc_spec(m, ins)
    }
}

/// One step of the execution engine.
pub open spec fn step_spec(m: ChipView, random: u8) -> (ChipView, StepOutcome) {
    match m.state {
        ExecState::Halted => (m, StepOutcome::Halted),
        ExecState::AwaitingKey { target, pressed } => match pressed {
            Some(k) => (
                ChipView { state: ExecState::Running, ..m.set_v(target as int, k).with_pc(next_pc(m.pc)) },
                StepOutcome::Continue,
            ),
            None => (m, StepOutcome::Continue),
        },
        ExecState::Running => execute_spec(m, decoded(fetch(m)), random),
    }
}

} // verus!
