//! Properties of the machine that span several instructions or operations.
use vstd::prelude::*;
use crate::instruction::{decoded, lemma_decode_nibbles};
use crate::machine::{
    collides, covered, draw_spec, flag, sprite_col, sprite_row, MEMORY_SIZE, SCREEN_WIDTH, next_pc, set_key_spec, sprite_bit, step_spec, word_at, ChipError, ChipView,
    ExecState, StepOutcome, DISPLAY_SIZE,
};

verus! {

/// Loading `nn` into `Vx` with `6xnn` and then adding zero with `7x00` leaves
/// `nn` in `Vx`.
pub proof fn lemma_load_then_add_zero(m: ChipView, x: u8, nn: u8, r1: u8, r2: u8)
    requires
        m.wf(),
        m.state == ExecState::Running,
        x < 16,
        word_at(m.memory, m.pc as int) == 0x6000 + x * 256 + nn,
        word_at(m.memory, next_pc(m.pc) as int) == 0x7000 + x * 256,
    ensures
        ({
            let (m1, o1) = step_spec(m, r1);
            let (m2, o2) = step_spec(m1, r2);
            &&& m2.v[x as int] == nn
            &&& o1 == StepOutcome::Continue
            &&& o2 == StepOutcome::Continue
        }),
{
    lemma_decode_nibbles(6, x as int, nn as int / 16, nn as int % 16);
    let (m1, o1) = step_spec(m, r1);
    assert(m1 == m.set_v(x as int, nn).with_pc(next_pc(m.pc)));
    lemma_decode_nibbles(7, x as int, 0, 0);
    assert(decoded(word_at(m1.memory, m1.pc as int)).nn == 0);
}

/// `8xy4` writes the sum modulo 256 to `Vx` and sets `VF` to 1 exactly when the
/// sum exceeds 255, else to 0. With `x == 15` the sum overwrites the flag.
pub proof fn lemma_add_carry(m: ChipView, x: u8, y: u8, r: u8)
    requires
        m.wf(),
        m.state == ExecState::Running,
        x < 15,
        y < 16,
        word_at(m.memory, m.pc as int) == 0x8004 + x * 256 + y * 16,
    ensures
        ({
            let (m1, o) = step_spec(m, r);
            let (vx, vy) = (m.v[x as int], m.v[y as int]);
            &&& m1.v[15] == 1 <==> vx + vy > 255
            &&& m1.v[15] <= 1
            &&& m1.v[x as int] == (vx + vy) % 256
            &&& o == StepOutcome::Continue
        }),
{
    lemma_decode_nibbles(8, x as int, y as int, 4);
}

/// `8xy5` writes the difference modulo 256 to `Vx` and sets `VF` to 1 exactly
/// when there is no borrow, else to 0. With `x == 15` the difference overwrites
/// the flag.
pub proof fn lemma_sub_borrow(m: ChipView, x: u8, y: u8, r: u8)
    requires
        m.wf(),
        m.state == ExecState::Running,
        x < 15,
        y < 16,
        word_at(m.memory, m.pc as int) == 0x8005 + x * 256 + y * 16,
    ensures
        ({
            let (m1, o) = step_spec(m, r);
            let (vx, vy) = (m.v[x as int], m.v[y as int]);
            &&& m1.v[15] == 1 <==> vx >= vy
            &&& m1.v[15] <= 1
            &&& m1.v[x as int] == (vx - vy) % 256
            &&& o == StepOutcome::Continue
        }),
{
    lemma_decode_nibbles(8, x as int, y as int, 5);
}

/// Drawing the same sprite at the same place twice in a row leaves the display
/// as it was. The first draw reports a collision when the sprite turns a set
/// pixel off; the second exactly when the sprite has a pixel over one that was
/// clear before the first. The place must not be held in `VF`, which the first
/// draw overwrites.
pub proof fn lemma_draw_twice(m: ChipView, x: u8, y: u8, n: u8, r1: u8, r2: u8)
    requires
        m.wf(),
        m.state == ExecState::Running,
        x < 15,
        y < 15,
        n < 16,
        word_at(m.memory, m.pc as int) == 0xD000 + x * 256 + y * 16 + n,
        word_at(m.memory, next_pc(m.pc) as int) == 0xD000 + x * 256 + y * 16 + n,
    ensures
        ({
            let (m1, o1) = step_spec(m, r1);
            let (m2, o2) = step_spec(m1, r2);
            let (vx, vy) = (m.v[x as int], m.v[y as int]);
            &&& m2.display == m.display
            &&& m1.v[15] == flag(collides(m, vx, vy, n))
            &&& m2.v[15] == flag(
                exists|p: int|
                    0 <= p < DISPLAY_SIZE && #[trigger] m.display[p] == 0 && sprite_bit(
                        m.memory,
                        m.i,
                        vx,
                        vy,
                        n,
                        p,
                    ) == 1,
            )
            &&& o1 == StepOutcome::DisplayDirty
            &&& o2 == StepOutcome::DisplayDirty
        }),
{
    let (vx, vy) = (m.v[x as int], m.v[y as int]);
    lemma_decode_nibbles(0xD, x as int, y as int, n as int);
    let (m1, o1) = step_spec(m, r1);
    let (m2, o2) = step_spec(m1, r2);
    assert(m1 == draw_spec(m, vx, vy, n));
    assert(m1.memory == m.memory && m1.i == m.i && m1.v[x as int] == vx && m1.v[y as int] == vy);
    assert(m2 == draw_spec(m1, vx, vy, n));
    assert forall|p: int| 0 <= p < DISPLAY_SIZE implies #[trigger] m2.display[p] == m.display[p]
        && (m1.display[p] == 1 <==> (m.display[p] == 0 && sprite_bit(m.memory, m.i, vx, vy, n, p) == 1)
            || (m.display[p] == 1 && sprite_bit(m.memory, m.i, vx, vy, n, p) == 0)) by {
        lemma_sprite_bit_is_bit(m.memory, m.i, vx, vy, n, p);
        lemma_xor_twice(m.display[p], sprite_bit(m.memory, m.i, vx, vy, n, p));
    }
    assert(m2.display =~= m.display);
    let clear_under = exists|p: int|
        0 <= p < DISPLAY_SIZE && #[trigger] m.display[p] == 0 && sprite_bit(m.memory, m.i, vx, vy, n, p) == 1;
    if clear_under {
        let p = choose|p: int|
            0 <= p < DISPLAY_SIZE && #[trigger] m.display[p] == 0 && sprite_bit(m.memory, m.i, vx, vy, n, p) == 1;
        assert(m1.display[p] == 1);
    }
    if collides(m1, vx, vy, n) {
        let p = choose|p: int|
            0 <= p < m1.display.len() && #[trigger] m1.display[p] == 1 && sprite_bit(m1.memory, m1.i, vx, vy, n, p) == 1;
        assert(m.display[p] == 0);
    }
}

proof fn lemma_sprite_bit_is_bit(memory: Seq<u8>, i: u16, vx: u8, vy: u8, n: u8, p: int)
    ensures
        sprite_bit(memory, i, vx, vy, n, p) <= 1,
{
    if covered(p, vx, vy, n) {
        let byte = memory[(i + sprite_row(p / SCREEN_WIDTH as int, vy)) % (MEMORY_SIZE as int)];
        let s = sprite_col(p % SCREEN_WIDTH as int, vx) as u8;
        assert((byte >> (7 - s) as u8) & 1u8 <= 1) by (bit_vector);
    }
}

proof fn lemma_xor_twice(a: u8, b: u8)
    requires
        a <= 1,
    ensures
        (a ^ b) ^ b == a,
        b <= 1 ==> ((a ^ b == 1) <==> (a == 0 && b == 1) || (a == 1 && b == 0)),
{
    assert((a ^ b) ^ b == a) by (bit_vector);
    assert(a <= 1 && b <= 1 ==> ((a ^ b == 1) <==> (a == 0 && b == 1) || (a == 1 && b == 0))) by (bit_vector);
}

/// A call `2nnn` to a subroutine that returns at once with `00EE` brings the
/// program counter to the instruction after the call, and the stack back to
/// what it was.
pub proof fn lemma_call_return(m: ChipView, nnn: u16, r1: u8, r2: u8)
    requires
        m.wf(),
        m.state == ExecState::Running,
        nnn < 4096,
        m.stack.len() < 16,
        word_at(m.memory, m.pc as int) == 0x2000 + nnn,
        word_at(m.memory, nnn as int) == 0x00EE,
    ensures
        ({
            let (m1, o1) = step_spec(m, r1);
            let (m2, o2) = step_spec(m1, r2);
            &&& m2.pc == next_pc(m.pc)
            &&& m2.stack == m.stack
            &&& o1 == StepOutcome::Continue
            &&& o2 == StepOutcome::Continue
        }),
{
    let (m1, o1) = step_spec(m, r1);
    assert(m1.stack.drop_last() =~= m.stack);
}

/// A return `00EE` with nothing stacked halts the machine with `StackUnderflow`.
pub proof fn lemma_return_empty_stack(m: ChipView, r: u8)
    requires
        m.wf(),
        m.state == ExecState::Running,
        m.stack.len() == 0,
        word_at(m.memory, m.pc as int) == 0x00EE,
    ensures
        step_spec(m, r) == (m.halt(), StepOutcome::StackUnderflow),
        step_spec(m, r).0.state == ExecState::Halted,
{
}

/// `Fx0A` suspends the machine at the same program counter, and while no key
/// goes down every step leaves it as it is and reports `Continue`.
pub proof fn lemma_wait_for_key(m: ChipView, x: u8, r1: u8, r2: u8)
    requires
        m.wf(),
        m.state == ExecState::Running,
        x < 16,
        word_at(m.memory, m.pc as int) == 0xF00A + x * 256,
    ensures
        ({
            let (m1, o1) = step_spec(m, r1);
            &&& m1.pc == m.pc
            &&& m1.state == ExecState::AwaitingKey { target: x, pressed: None }
            &&& o1 == StepOutcome::Continue
            &&& step_spec(m1, r2) == (m1, StepOutcome::Continue)
        }),
{
}

/// While the machine waits for a key, key `k` going down makes the next step
/// store `k` in the waiting register and go on past the `Fx0A`.
pub proof fn lemma_key_resumes(m: ChipView, k: int, r: u8)
    requires
        m.wf(),
        m.state is AwaitingKey,
        m.state->pressed is None,
        0 <= k < 16,
        !m.keys[k],
    ensures
        ({
            let (m1, res) = set_key_spec(m, k, true);
            let (m2, o) = step_spec(m1, r);
            &&& res == Ok::<(), ChipError>(())
            &&& m2.v[m.state->target as int] == k
            &&& m2.pc == next_pc(m.pc)
            &&& m2.state == ExecState::Running
            &&& o == StepOutcome::Continue
        }),
{
}

} // verus!
