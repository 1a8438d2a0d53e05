//! The machine and its execution engine.
use vstd::prelude::*;
use crate::instruction::{decode, decoded, Instruction};
use crate::machine::{
    arith_flag, arith_known, arith_result, arith_spec, load_spec, loaded, set_key_spec, tick_spec, collides, covered, draw_spec, drawn, execute_spec, fetch, font, initial, misc_spec, sprite_bit,
    sprite_col, sprite_row, step_spec, ChipView, ExecState, StepOutcome, DISPLAY_SIZE, FLAG_REGISTER,
    ChipError, FONT_SIZE, GLYPH_SIZE, KEY_COUNT, MEMORY_SIZE, PROGRAM_START, REGISTER_COUNT, SCREEN_HEIGHT,
    SCREEN_WIDTH, STACK_CAPACITY,
};
use crate::rng::random_byte;

verus! {

/// A machine: memory, registers, stack, timers, display and keypad, and where
/// the execution engine stands.
pub struct Chip {
    memory: Vec<u8>,
    v: Vec<u8>,
    i: u16,
    pc: u16,
    stack: Vec<u16>,
    delay_timer: u8,
    sound_timer: u8,
    display: Vec<u8>,
    keys: Vec<bool>,
    state: ExecState,
}

impl View for Chip {
    type V = ChipView;

    closed spec fn view(&self) -> ChipView {
        ChipView {
            memory: self.memory@,
            v: self.v@,
            i: self.i,
            pc: self.pc,
            stack: self.stack@,
            delay_timer: self.delay_timer,
            sound_timer: self.sound_timer,
            display: self.display@,
            keys: self.keys@,
            state: self.state,
        }
    }
}

impl Chip {
    pub open spec fn wf(&self) -> bool {
        self@.wf()
    }

    /// A fresh machine: the font installed at address 0, the program counter at
    /// the program start, everything else zero.
    pub fn new() -> (chip: Chip)
        ensures
            chip@ == initial(),
            chip.wf(),
    {
        let glyphs: Vec<u8> = vec![
            0xF0u8, 0x90, 0x90, 0x90, 0xF0, 0x20, 0x60, 0x20, 0x20, 0x70,
            0xF0, 0x10, 0xF0, 0x80, 0xF0, 0xF0, 0x10, 0xF0, 0x10, 0xF0,
            0x90, 0x90, 0xF0, 0x10, 0x10, 0xF0, 0x80, 0xF0, 0x10, 0xF0,
            0xF0, 0x80, 0xF0, 0x90, 0xF0, 0xF0, 0x10, 0x20, 0x40, 0x40,
            0xF0, 0x90, 0xF0, 0x90, 0xF0, 0xF0, 0x90, 0xF0, 0x10, 0xF0,
            0xF0, 0x90, 0xF0, 0x90, 0x90, 0xE0, 0x90, 0xE0, 0x90, 0xE0,
            0xF0, 0x80, 0x80, 0x80, 0xF0, 0xE0, 0x90, 0x90, 0x90, 0xE0,
            0xF0, 0x80, 0xF0, 0x80, 0xF0, 0xF0, 0x80, 0xF0, 0x80, 0x80,
        ];
        assert(glyphs@ =~= font());
        let mut memory: Vec<u8> = Vec::new();
        let mut a: usize = 0;
        while a < MEMORY_SIZE
            invariant
                a <= MEMORY_SIZE,
                glyphs@ == font(),
                memory@.len() == a,
                forall|k: int| 0 <= k < a ==> #[trigger] memory@[k] == initial().memory[k],
            decreases MEMORY_SIZE - a,
        {
            if a < FONT_SIZE {
                memory.push(glyphs[a]);
            } else {
                memory.push(0);
            }
            a = a + 1;
        }
        let chip = Chip {
            memory,
            v: vec![0u8; REGISTER_COUNT],
            i: 0,
            pc: PROGRAM_START as u16,
            stack: Vec::new(),
            delay_timer: 0,
            sound_timer: 0,
            display: vec![0u8; DISPLAY_SIZE],
            keys: vec![false; KEY_COUNT],
            state: ExecState::Running,
        };
        assert(chip@.memory =~= initial().memory);
        assert(chip@.v =~= initial().v);
        assert(chip@.stack =~= initial().stack);
        assert(chip@.display =~= initial().display);
        assert(chip@.keys =~= initial().keys);
        chip
    }

    /// Copies a program image to memory from the program start on. An image
    /// longer than the memory above the program start is rejected with
    /// `ImageTooLarge`, and nothing changes.
    pub fn load_game(&mut self, image: &[u8]) -> (r: Result<(), ChipError>)
        requires
            old(self).wf(),
        ensures
            final(self).wf(),
            (final(self)@, r) == load_spec(old(self)@, image@),
    {
        if image.len() > MEMORY_SIZE - PROGRAM_START {
            return Err(ChipError::ImageTooLarge);
        }
        let ghost m = self@;
        let mut k: usize = 0;
        while k < image.len()
            invariant
                m.wf(),
                k <= image@.len() <= MEMORY_SIZE - PROGRAM_START,
                self@ == (ChipView { memory: self@.memory, ..m }),
                self@.memory.len() == MEMORY_SIZE,
                forall|a: int|
                    0 <= a < MEMORY_SIZE ==> #[trigger] self@.memory[a] == if PROGRAM_START <= a < PROGRAM_START + k {
                        image@[a - PROGRAM_START]
                    } else {
                        m.memory[a]
                    },
            decreases image@.len() - k,
        {
            self.memory.set(PROGRAM_START + k, image[k]);
            k = k + 1;
        }
        assert(self@.memory =~= loaded(m.memory, image@));
        Ok(())
    }

    /// Sets key `index` down or up. An index above 15 is rejected with
    /// `KeyIndexOutOfRange`, and nothing changes. A key going down while the
    /// machine awaits one is latched for the next step.
    pub fn set_key(&mut self, index: usize, pressed: bool) -> (r: Result<(), ChipError>)
        requires
            old(self).wf(),
        ensures
            final(self).wf(),
            (final(self)@, r) == set_key_spec(old(self)@, index as int, pressed),
    {
        if index >= KEY_COUNT {
            return Err(ChipError::KeyIndexOutOfRange);
        }
        let was_down = self.keys[index];
        self.keys.set(index, pressed);
        match self.state {
            ExecState::AwaitingKey { target, pressed: None } => {
                if pressed && !was_down {
                    self.state = ExecState::AwaitingKey { target, pressed: Some(index as u8) };
                }
            },
            _ => {},
        }
        Ok(())
    }

    /// Takes one from each timer that is not zero. The host calls this at a
    /// fixed rate of its own, whatever the number of steps in between.
    pub fn tick_timers(&mut self)
        requires
            old(self).wf(),
        ensures
            final(self).wf(),
            final(self)@ == tick_spec(old(self)@),
    {
        if self.delay_timer > 0 {
            self.delay_timer = self.delay_timer - 1;
        }
        if self.sound_timer > 0 {
            self.sound_timer = self.sound_timer - 1;
        }
    }

    /// Whether the sound timer runs, the cue for the host to beep.
    pub fn sound_timer_active(&self) -> (r: bool)
        ensures
            r == (self@.sound_timer > 0),
    {
        self.sound_timer > 0
    }

    /// The display buffer: 64 x 32 pixels, row-major, one byte of 0 or 1 each.
    pub fn display(&self) -> (d: &[u8])
        ensures
            d@ == self@.display,
    {
        self.display.as_slice()
    }

    /// Register `Vx`.
    pub fn register(&self, x: usize) -> (r: u8)
        requires
            self.wf(),
            x < REGISTER_COUNT,
        ensures
            r == self@.v[x as int],
    {
        self.v[x]
    }

    /// The byte at memory address `addr`.
    pub fn memory_at(&self, addr: usize) -> (r: u8)
        requires
            self.wf(),
            addr < MEMORY_SIZE,
        ensures
            r == self@.memory[addr as int],
    {
        self.memory[addr]
    }

    /// Whether key `k` is down.
    pub fn key_pressed(&self, k: usize) -> (r: bool)
        requires
            self.wf(),
            k < KEY_COUNT,
        ensures
            r == self@.keys[k as int],
    {
        self.keys[k]
    }

    /// The program counter.
    pub fn pc(&self) -> (r: u16)
        ensures
            r == self@.pc,
    {
        self.pc
    }

    /// The index register `I`.
    pub fn index(&self) -> (r: u16)
        ensures
            r == self@.i,
    {
        self.i
    }

    /// How many return addresses are stacked.
    pub fn stack_depth(&self) -> (r: usize)
        ensures
            r == self@.stack.len(),
    {
        self.stack.len()
    }

    pub fn delay_timer(&self) -> (r: u8)
        ensures
            r == self@.delay_timer,
    {
        self.delay_timer
    }

    pub fn sound_timer(&self) -> (r: u8)
        ensures
            r == self@.sound_timer,
    {
        self.sound_timer
    }

    /// Where the execution engine stands.
    pub fn state(&self) -> (r: ExecState)
        ensures
            r == self@.state,
    {
        self.state
    }

    /// The big-endian word at the program counter.
    fn fetch(&self) -> (code: u16)
        requires
            self.wf(),
        ensures
            code == fetch(self@),
    {
        let hi = self.memory[self.pc as usize] as u16;
        let lo = self.memory[(self.pc as usize + 1) % MEMORY_SIZE] as u16;
        hi * 256 + lo
    }

    /// One step of the execution engine, with `random` as the byte that `Cxnn`
    /// masks. A halted machine stays as it is; a machine awaiting a key resumes
    /// only once a key went down; a running one executes the instruction at the
    /// program counter.
    pub fn step(&mut self, random: u8) -> (out: StepOutcome)
        requires
            old(self).wf(),
        ensures
            final(self).wf(),
            (final(self)@, out) == step_spec(old(self)@, random),
    {
        match self.state {
            ExecState::Halted => StepOutcome::Halted,
            ExecState::AwaitingKey { target, pressed } => match pressed {
                Some(k) => {
                    self.v.set(target as usize, k);
                    self.pc = (self.pc + 2) % 4096;
                    self.state = ExecState::Running;
                    StepOutcome::Continue
                },
                None => StepOutcome::Continue,
            },
            ExecState::Running => {
                let code = self.fetch();
                let ins = decode(code);
                self.execute(ins, random)
            },
        }
    }

    /// One step of the execution engine, with a byte from the random number
    /// generator for `Cxnn`. Whatever byte came, the step is the one that
    /// `step` takes with it.
    pub fn emulate_cycle(&mut self) -> (out: StepOutcome)
        requires
            old(self).wf(),
        ensures
            final(self).wf(),
            exists|random: u8| (final(self)@, out) == step_spec(old(self)@, random),
    {
        let random = random_byte();
        let out = self.step(random);
        assert((self@, out) == step_spec(old(self)@, random));
        out
    }

    /// Executes one decoded instruction.
    fn execute(&mut self, ins: Instruction, random: u8) -> (out: StepOutcome)
        requires
            old(self).wf(),
            ins == decoded(ins.code),
        ensures
            final(self).wf(),
            (final(self)@, out) == execute_spec(old(self)@, ins, random),
    {
        proof {
            lemma_decoded_bounds(ins.code);
        }
        let x = ins.x as usize;
        let vx = self.v[x];
        let vy = self.v[ins.y as usize];
        let next = (self.pc + 2) % 4096;
        let skip = (self.pc + 4) % 4096;
        if ins.family == 0 {
            if ins.code == 0x00E0 {
                self.display = vec![0u8; DISPLAY_SIZE];
                self.pc = next;
                assert(self@.display =~= Seq::new(DISPLAY_SIZE as nat, |p: int| 0u8));
                StepOutcome::DisplayDirty
            } else if ins.code == 0x00EE {
                match self.stack.pop() {
                    Some(a) => {
                        self.pc = a;
                        StepOutcome::Continue
                    },
                    None => {
                        self.state = ExecState::Halted;
                        StepOutcome::StackUnderflow
                    },
                }
            } else {
                self.state = ExecState::Halted;
                StepOutcome::UnknownOpcode(ins.code)
            }
        } else if ins.family == 1 {
            self.pc = ins.nnn;
            StepOutcome::Continue
        } else if ins.family == 2 {
            if self.stack.len() >= STACK_CAPACITY {
                self.state = ExecState::Halted;
                StepOutcome::StackOverflow
            } else {
                self.stack.push(next);
                self.pc = ins.nnn;
                StepOutcome::Continue
            }
        } else if ins.family == 3 {
            self.pc = if vx == ins.nn { skip } else { next };
            StepOutcome::Continue
        } else if ins.family == 4 {
            self.pc = if vx != ins.nn { skip } else { next };
            StepOutcome::Continue
        } else if ins.family == 5 && ins.n == 0 {
            self.pc = if vx == vy { skip } else { next };
            StepOutcome::Continue
        } else if ins.family == 6 {
            self.v.set(x, ins.nn);
            self.pc = next;
            StepOutcome::Continue
        } else if ins.family == 7 {
            self.v.set(x, vx.wrapping_add(ins.nn));
            self.pc = next;
            StepOutcome::Continue
        } else if ins.family == 8 {
            self.execute_arith(ins)
        } else if ins.family == 9 && ins.n == 0 {
            self.pc = if vx != vy { skip } else { next };
            StepOutcome::Continue
        } else if ins.family == 0xA {
            self.i = ins.nnn;
            self.pc = next;
            StepOutcome::Continue
        } else if ins.family == 0xB {
            self.pc = (ins.nnn + self.v[0] as u16) % 4096;
            StepOutcome::Continue
        } else if ins.family == 0xC {
            self.v.set(x, random & ins.nn);
            self.pc = next;
            StepOutcome::Continue
        } else if ins.family == 0xD {
            self.draw(vx, vy, ins.n);
            StepOutcome::DisplayDirty
        } else if ins.family == 0xE && (ins.nn == 0x9E || ins.nn == 0xA1) {
            let k = vx as usize;
            let down = k < KEY_COUNT && self.keys[k];
            self.pc = if down == (ins.nn == 0x9E) { skip } else { next };
            StepOutcome::Continue
        } else if ins.family == 0xF {
            self.execute_misc(ins)
        } else {
            self.state = ExecState::Halted;
            StepOutcome::UnknownOpcode(ins.code)
        }
    }
}

impl Chip {
    /// The `8xy_` family.
    fn execute_arith(&mut self, ins: Instruction) -> (out: StepOutcome)
        requires
            old(self).wf(),
            ins == decoded(ins.code),
            ins.family == 8,
        ensures
            final(self).wf(),
            (final(self)@, out) == arith_spec(old(self)@, ins),
    {
        proof {
            lemma_decoded_bounds(ins.code);
        }
        if !(ins.n <= 7 || ins.n == 0xE) {
            self.state = ExecState::Halted;
            return StepOutcome::UnknownOpcode(ins.code);
        }
        let x = ins.x as usize;
        let (f, result) = arith_values(ins.n, self.v[x], self.v[ins.y as usize]);
        match f {
            Some(b) => self.v.set(FLAG_REGISTER, b),
            None => {},
        }
        self.v.set(x, result);
        self.pc = (self.pc + 2) % 4096;
        StepOutcome::Continue
    }

    /// The `Fx__` family.
    fn execute_misc(&mut self, ins: Instruction) -> (out: StepOutcome)
        requires
            old(self).wf(),
            ins == decoded(ins.code),
            ins.family == 0xF,
        ensures
            final(self).wf(),
            (final(self)@, out) == misc_spec(old(self)@, ins),
    {
        proof {
            lemma_decoded_bounds(ins.code);
        }
        let ghost m = self@;
        let x = ins.x as usize;
        let vx = self.v[x];
        let base = self.i as usize;
        let next = (self.pc + 2) % 4096;
        if ins.nn == 0x07 {
            self.v.set(x, self.delay_timer);
        } else if ins.nn == 0x0A {
            self.state = ExecState::AwaitingKey { target: ins.x, pressed: None };
            return StepOutcome::Continue;
        } else if ins.nn == 0x15 {
            self.delay_timer = vx;
        } else if ins.nn == 0x18 {
            self.sound_timer = vx;
        } else if ins.nn == 0x1E {
            self.i = self.i.wrapping_add(vx as u16);
        } else if ins.nn == 0x29 {
            self.i = vx as u16 * 5;
        } else if ins.nn == 0x33 {
            self.memory.set(base % MEMORY_SIZE, vx / 100);
            self.memory.set((base + 1) % MEMORY_SIZE, (vx / 10) % 10);
            self.memory.set((base + 2) % MEMORY_SIZE, vx % 10);
        } else if ins.nn == 0x55 {
            let mut k: usize = 0;
            while k <= x
                invariant
                    m.wf(),
                    x < 16,
                    k <= x + 1,
                    base == m.i,
                    self@ == (ChipView { memory: self@.memory, ..m }),
                    self@.memory.len() == MEMORY_SIZE,
                    forall|a: int|
                        0 <= a < MEMORY_SIZE ==> #[trigger] self@.memory[a] == if (a - base) % 4096 < k {
                            m.v[(a - base) % 4096]
                        } else {
                            m.memory[a]
                        },
                decreases x + 1 - k,
            {
                let a = (base + k) % MEMORY_SIZE;
                proof {
                    lemma_offset(a as int, base as int, k as int);
                }
                self.memory.set(a, self.v[k]);
                k = k + 1;
            }
            assert(self@.memory =~= misc_spec(m, ins).0.memory);
        } else if ins.nn == 0x65 {
            let mut k: usize = 0;
            while k <= x
                invariant
                    m.wf(),
                    x < 16,
                    k <= x + 1,
                    base == m.i,
                    self@ == (ChipView { v: self@.v, ..m }),
                    self@.v.len() == REGISTER_COUNT,
                    forall|j: int|
                        0 <= j < REGISTER_COUNT ==> #[trigger] self@.v[j] == if j < k {
                            m.memory[(base + j) % 4096]
                        } else {
                            m.v[j]
                        },
                decreases x + 1 - k,
            {
                let b = self.memory[(base + k) % MEMORY_SIZE];
                self.v.set(k, b);
                k = k + 1;
            }
            assert(self@.v =~= misc_spec(m, ins).0.v);
        } else {
            self.state = ExecState::Halted;
            return StepOutcome::UnknownOpcode(ins.code);
        }
        self.pc = next;
        StepOutcome::Continue
    }

    /// Draws the `n`-row sprite at memory address `I` at column `vx`, row `vy`.
    fn draw(&mut self, vx: u8, vy: u8, n: u8)
        requires
            old(self).wf(),
            n < 16,
        ensures
            final(self).wf(),
            final(self)@ == draw_spec(old(self)@, vx, vy, n),
    {
        let ghost m = self@;
        let mut collided = false;
        proof {
            assert forall|p: int| 0 <= p < DISPLAY_SIZE implies #[trigger] m.display[p] ^ 0u8 == m.display[p] by {
                lemma_bits(m.display[p], 0, 0, 0);
            }
        }
        let mut row: u8 = 0;
        while row < n
            invariant
                m.wf(),
                n < 16,
                row <= n,
                self@ == (ChipView { display: self@.display, ..m }),
                self@.display.len() == DISPLAY_SIZE,
                forall|p: int|
                    0 <= p < DISPLAY_SIZE ==> #[trigger] self@.display[p] == m.display[p] ^ (if drawn_before(p, vx, vy, n, row as int, 0) {
                        sprite_bit(m.memory, m.i, vx, vy, n, p)
                    } else {
                        0u8
                    }),
                collided == exists|p: int|
                    0 <= p < DISPLAY_SIZE && #[trigger] drawn_before(p, vx, vy, n, row as int, 0)
                        && m.display[p] == 1 && sprite_bit(m.memory, m.i, vx, vy, n, p) == 1,
            decreases n - row,
        {
            let byte = self.memory[(self.i as usize + row as usize) % MEMORY_SIZE];
            let mut col: u8 = 0;
            while col < 8
                invariant
                    m.wf(),
                    n < 16,
                    row < n,
                    col <= 8,
                    byte == m.memory[(m.i + row) % 4096],
                    self@ == (ChipView { display: self@.display, ..m }),
                    self@.display.len() == DISPLAY_SIZE,
                    forall|p: int|
                        0 <= p < DISPLAY_SIZE ==> #[trigger] self@.display[p] == m.display[p] ^ (if drawn_before(p, vx, vy, n, row as int, col as int) {
                            sprite_bit(m.memory, m.i, vx, vy, n, p)
                        } else {
                            0u8
                        }),
                    collided == exists|p: int|
                        0 <= p < DISPLAY_SIZE && #[trigger] drawn_before(p, vx, vy, n, row as int, col as int)
                            && m.display[p] == 1 && sprite_bit(m.memory, m.i, vx, vy, n, p) == 1,
                decreases 8 - col,
            {
                let pos = ((vy as usize + row as usize) % SCREEN_HEIGHT) * SCREEN_WIDTH + (vx as usize + col as usize) % SCREEN_WIDTH;
                let bit = (byte >> (7 - col)) & 1;
                let old_pixel = self.display[pos];
                proof {
                    lemma_cell(pos as int, vx, vy, row as int, col as int);
                    assert forall|p: int| 0 <= p < DISPLAY_SIZE && p != pos implies
                        drawn_before(p, vx, vy, n, row as int, col as int + 1)
                            == drawn_before(p, vx, vy, n, row as int, col as int) by {
                        lemma_cell(p, vx, vy, row as int, col as int);
                    }
                    assert(sprite_bit(m.memory, m.i, vx, vy, n, pos as int) == bit);
                    assert(!drawn_before(pos as int, vx, vy, n, row as int, col as int));
                    assert(drawn_before(pos as int, vx, vy, n, row as int, col as int + 1));
                    lemma_bits(m.display[pos as int], bit, byte, (7 - col) as u8);
                    assert(old_pixel == m.display[pos as int]);
                    assert(old_pixel ^ bit <= 1);
                }
                if old_pixel == 1 && bit == 1 {
                    collided = true;
                }
                self.display.set(pos, old_pixel ^ bit);
                col = col + 1;
                proof {
                    if !collided {
                        assert forall|p: int|
                            0 <= p < DISPLAY_SIZE && #[trigger] drawn_before(p, vx, vy, n, row as int, col as int)
                                implies !(m.display[p] == 1 && sprite_bit(m.memory, m.i, vx, vy, n, p) == 1) by {
                            if p != pos {
                                assert(drawn_before(p, vx, vy, n, row as int, col - 1));
                            }
                        }
                    }
                    if collided {
                        if old_pixel == 1 && bit == 1 {
                            assert(drawn_before(pos as int, vx, vy, n, row as int, col as int));
                        } else {
                            let q = choose|q: int|
                                0 <= q < DISPLAY_SIZE && #[trigger] drawn_before(q, vx, vy, n, row as int, col - 1)
                                    && m.display[q] == 1 && sprite_bit(m.memory, m.i, vx, vy, n, q) == 1;
                            assert(drawn_before(q, vx, vy, n, row as int, col as int));
                        }
                    }
                }
            }
            row = row + 1;
            proof {
                assert forall|p: int| 0 <= p < DISPLAY_SIZE implies
                    drawn_before(p, vx, vy, n, row as int, 0) == drawn_before(p, vx, vy, n, row - 1, 8) by {}
                if collided {
                    let q = choose|q: int|
                        0 <= q < DISPLAY_SIZE && #[trigger] drawn_before(q, vx, vy, n, row - 1, 8)
                            && m.display[q] == 1 && sprite_bit(m.memory, m.i, vx, vy, n, q) == 1;
                    assert(drawn_before(q, vx, vy, n, row as int, 0));
                }
            }
        }
        proof {
            assert forall|p: int| 0 <= p < DISPLAY_SIZE implies
                drawn_before(p, vx, vy, n, n as int, 0) == covered(p, vx, vy, n) by {}
            assert(self@.display =~= drawn(m, vx, vy, n));
            assert forall|p: int| 0 <= p < DISPLAY_SIZE implies #[trigger] self@.display[p] <= 1 by {
                if covered(p, vx, vy, n) {
                    let byte = m.memory[(m.i + sprite_row(p / SCREEN_WIDTH as int, vy)) % 4096];
                    let s = (7 - sprite_col(p % SCREEN_WIDTH as int, vx)) as u8;
                    lemma_bits(m.display[p], sprite_bit(m.memory, m.i, vx, vy, n, p), byte, s);
                } else {
                    lemma_bits(m.display[p], 0, 0, 0);
                }
            }
            if collided {
                let q = choose|q: int|
                    0 <= q < DISPLAY_SIZE && #[trigger] drawn_before(q, vx, vy, n, n as int, 0)
                        && m.display[q] == 1 && sprite_bit(m.memory, m.i, vx, vy, n, q) == 1;
                assert(m.display[q] == 1);
            }
            if collides(m, vx, vy, n) {
                let q = choose|q: int|
                    0 <= q < m.display.len() && #[trigger] m.display[q] == 1
                        && sprite_bit(m.memory, m.i, vx, vy, n, q) == 1;
                assert(drawn_before(q, vx, vy, n, n as int, 0));
            }
        }
        self.v.set(FLAG_REGISTER, if collided { 1 } else { 0 });
        self.pc = (self.pc + 2) % 4096;
    }
}

/// The flag and the result of the `8xyn` operation on `vx` and `vy`.
fn arith_values(n: u8, vx: u8, vy: u8) -> (r: (Option<u8>, u8))
    requires
        arith_known(n),
    ensures
        r.0 == arith_flag(n, vx, vy),
        r.1 == arith_result(n, vx, vy),
{
    if n == 0 {
        (None, vy)
    } else if n == 1 {
        (None, vx | vy)
    } else if n == 2 {
        (None, vx & vy)
    } else if n == 3 {
        (None, vx ^ vy)
    } else if n == 4 {
        (Some(if vx as u16 + vy as u16 > 255 { 1 } else { 0 }), vx.wrapping_add(vy))
    } else if n == 5 {
        (Some(if vx >= vy { 1 } else { 0 }), vx.wrapping_sub(vy))
    } else if n == 6 {
        assert(vx & 1 == vx % 2 && vx >> 1 == vx / 2) by (bit_vector);
        (Some(vx & 1), vx >> 1)
    } else if n == 7 {
        (Some(if vy >= vx { 1 } else { 0 }), vy.wrapping_sub(vx))
    } else {
        assert(vx >> 7 == vx / 128) by (bit_vector);
        (Some(vx >> 7), vx.wrapping_add(vx))
    }
}

/// Whether the drawing loop has visited display cell `p` before sprite cell `(row, col)`.
spec fn drawn_before(p: int, vx: u8, vy: u8, n: u8, row: int, col: int) -> bool {
    covered(p, vx, vy, n) && (sprite_row(p / SCREEN_WIDTH as int, vy) < row || (sprite_row(
        p / SCREEN_WIDTH as int,
        vy,
    ) == row && sprite_col(p % SCREEN_WIDTH as int, vx) < col))
}

/// Display cell `pos` is the one that sprite cell `(row, col)` lands on, and only it.
proof fn lemma_cell(p: int, vx: u8, vy: u8, row: int, col: int)
    requires
        0 <= p < DISPLAY_SIZE,
        0 <= row < SCREEN_HEIGHT,
        0 <= col < SCREEN_WIDTH,
    ensures
        ({
            let pos = ((vy + row) % 32) * 64 + (vx + col) % 64;
            &&& 0 <= pos < DISPLAY_SIZE
            &&& pos / 64 == (vy + row) % 32
            &&& pos % 64 == (vx + col) % 64
            &&& sprite_row(pos / 64, vy) == row
            &&& sprite_col(pos % 64, vx) == col
            &&& (sprite_row(p / 64, vy) == row && sprite_col(p % 64, vx) == col) <==> p == pos
        }),
{
    let r = (vy + row) % 32;
    let c = (vx + col) % 64;
    let pos = r * 64 + c;
    vstd::arithmetic::div_mod::lemma_fundamental_div_mod_converse(pos, 64, r, c);
    lemma_row_inverse(r, vy as int, row);
    lemma_row_inverse(p / 64, vy as int, row);
    lemma_col_inverse(c, vx as int, col);
    lemma_col_inverse(p % 64, vx as int, col);
    vstd::arithmetic::div_mod::lemma_fundamental_div_mod(p, 64);
}

proof fn lemma_row_inverse(r: int, v: int, k: int)
    requires
        0 <= r < 32,
        0 <= v < 256,
        0 <= k < 32,
    ensures
        ((r + 256 - v) % 32 == k) <==> (r == (v + k) % 32),
{
}

proof fn lemma_col_inverse(c: int, v: int, k: int)
    requires
        0 <= c < 64,
        0 <= v < 256,
        0 <= k < 64,
    ensures
        ((c + 256 - v) % 64 == k) <==> (c == (v + k) % 64),
{
}

/// Facts on pixel values: XOR with zero keeps a value; XOR of two bits is a bit;
/// a sprite pixel is a bit.
proof fn lemma_bits(a: u8, b: u8, byte: u8, s: u8)
    ensures
        a ^ 0u8 == a,
        a <= 1 && b <= 1 ==> a ^ b <= 1,
        (byte >> s) & 1u8 <= 1,
{
    assert(a ^ 0u8 == a) by (bit_vector);
    assert(a <= 1 && b <= 1 ==> a ^ b <= 1) by (bit_vector);
    assert((byte >> s) & 1u8 <= 1) by (bit_vector);
}

/// Address `a` is offset `k` from `base`, modulo the memory size.
proof fn lemma_offset(a: int, base: int, k: int)
    requires
        0 <= base,
        0 <= k < 16,
        a == (base + k) % 4096,
    ensures
        forall|b: int| 0 <= b < 4096 ==> (#[trigger] ((b - base) % 4096) == k <==> b == a),
        (a - base) % 4096 == k,
{
}

proof fn lemma_decoded_bounds(code: u16)
    ensures
        decoded(code).family < 16,
        decoded(code).x < 16,
        decoded(code).y < 16,
        decoded(code).n < 16,
        decoded(code).nnn < 4096,
        decoded(code).family == 0 ==> decoded(code).code == decoded(code).nnn,
{
}

} // verus!
