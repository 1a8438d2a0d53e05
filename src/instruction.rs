//! Splitting a 16-bit instruction word into its fields.
use vstd::prelude::*;

verus! {

/// The fields of one instruction word `FXYN`, with `NN` its low byte and `NNN`
/// its low twelve bits.
#[derive(Clone, Copy, Debug, PartialEq, Eq, Structural)]
pub struct Instruction {
    /// The whole word.
    pub code: u16,
    /// The top nibble: which family of operations.
    pub family: u8,
    /// The second nibble, most often a register index.
    pub x: u8,
    /// The third nibble, most often a register index.
    pub y: u8,
    /// The low nibble.
    pub n: u8,
    /// The low byte.
    pub nn: u8,
    /// The low twelve bits, most often an address.
    pub nnn: u16,
}

/// What decoding `code` gives, stated by arithmetic on the word.
pub open spec fn decoded(code: u16) -> Instruction {
    Instruction {
        code,
        family: (code / 4096) as u8,
        x: ((code / 256) % 16) as u8,
        y: ((code / 16) % 16) as u8,
        n: (code % 16) as u8,
        nn: (code % 256) as u8,
        nnn: (code % 4096) as u16,
    }
}

/// Every word decodes; the nibble fields are below 16 and the address below 4096.
pub fn decode(code: u16) -> (ins: Instruction)
    ensures
        ins == decoded(code),
        ins.family < 16 && ins.x < 16 && ins.y < 16 && ins.n < 16 && ins.nnn < 4096,
{
    let family = code >> 12u16;
    let x = (code >> 8u16) & 0xFu16;
    let y = (code >> 4u16) & 0xFu16;
    let n = code & 0xFu16;
    let nn = code & 0xFFu16;
    let nnn = code & 0xFFFu16;
    assert(code >> 12u16 == code / 4096) by (bit_vector);
    assert((code >> 8u16) & 0xFu16 == (code / 256) % 16) by (bit_vector);
    assert((code >> 4u16) & 0xFu16 == (code / 16) % 16) by (bit_vector);
    assert(code & 0xFu16 == code % 16) by (bit_vector);
    assert(code & 0xFFu16 == code % 256) by (bit_vector);
    assert(code & 0xFFFu16 == code % 4096) by (bit_vector);
    Instruction {
        code,
        family: family as u8,
        x: x as u8,
        y: y as u8,
        n: n as u8,
        nn: nn as u8,
        nnn,
    }
}

/// The fields of the word made of bytes `hi` and `lo`, read off the bytes.
pub proof fn lemma_decode_bytes(hi: u8, lo: u8)
    ensures
        ({
            let ins = decoded((hi * 256 + lo) as u16);
            &&& ins.code == hi * 256 + lo
            &&& ins.family == hi / 16
            &&& ins.x == hi % 16
            &&& ins.y == lo / 16
            &&& ins.n == lo % 16
            &&& ins.nn == lo
            &&& ins.nnn == (hi % 16) * 256 + lo
        }),
{
    let code = hi * 256 + lo;
    assert(0 <= code < 65536) by (nonlinear_arith)
        requires
            0 <= hi < 256,
            0 <= lo < 256,
            code == hi * 256 + lo,
    ;
    assert(code / 4096 == hi / 16 && (code / 256) % 16 == hi % 16 && (code / 16) % 16 == lo / 16
        && code % 16 == lo % 16 && code % 256 == lo && code % 4096 == (hi % 16) * 256 + lo) by (nonlinear_arith)
        requires
            0 <= hi < 256,
            0 <= lo < 256,
            code == hi * 256 + lo,
    ;
}

/// The fields of the word made of nibbles `f`, `x`, `y` and `n`.
pub proof fn lemma_decode_nibbles(f: int, x: int, y: int, n: int)
    requires
        0 <= f < 16,
        0 <= x < 16,
        0 <= y < 16,
        0 <= n < 16,
    ensures
        ({
            let ins = decoded((f * 4096 + x * 256 + y * 16 + n) as u16);
            &&& ins.code == f * 4096 + x * 256 + y * 16 + n
            &&& ins.family == f
            &&& ins.x == x
            &&& ins.y == y
            &&& ins.n == n
            &&& ins.nn == y * 16 + n
            &&& ins.nnn == x * 256 + y * 16 + n
        }),
{
    lemma_decode_bytes((f * 16 + x) as u8, (y * 16 + n) as u8);
}

} // verus!
