//! The instruction set and its decoder.

use vstd::prelude::*;

verus! {

/// One instruction of the language.
#[derive(Copy, Clone, Debug, PartialEq, Eq, Structural)]
pub enum Op {
    /// Push the literal 0 to 9.
    Int(u8),
    /// `+`
    Add,
    /// `-`
    Sub,
    /// `*`
    Mul,
    /// `/`
    Div,
    /// `%`
    Mod,
    /// `!`
    Not,
    /// `` ` ``: greater than.
    Gre,
    /// `>`: go right.
    Rht,
    /// `<`: go left.
    Lft,
    /// `^`: go up.
    Upp,
    /// `v`: go down.
    Dwn,
    /// `?`: go in a random direction.
    Rnd,
    /// `_`: pop; go right on zero, left otherwise.
    Hif,
    /// `|`: pop; go down on zero, up otherwise.
    Vif,
    /// `"`: toggle string mode.
    Str,
    /// `:`: duplicate the top.
    Dup,
    /// `\`: swap the two topmost values.
    Swp,
    /// `$`: discard the top.
    Pop,
    /// `.`: pop and write as a decimal number.
    Iot,
    /// `,`: pop and write as a character.
    Cot,
    /// `#`: pass over the next cell.
    Skp,
    /// `p`: pop column, row and value; write the value into the grid.
    Put,
    /// `g`: pop column and row; push the byte found there.
    Get,
    /// `&`: read a number and push it.
    Iin,
    /// `~`: read a character and push it.
    Cin,
    /// `@`: stop.
    End,
    /// Any other byte: nothing.
    Nop,
}

impl Op {
    /// The byte that is written in the grid for an operator; `None` for
    /// `Nop`, which stands for every byte without a meaning. A literal
    /// `Int(i)` has a byte only for `i` up to 9.
    pub open spec fn glyph(self) -> Option<u8> {
        match self {
            Op::Int(i) => if i <= 9 {
                Some((0x30 + i) as u8)
            } else {
                None
            },
            Op::Add => Some(0x2bu8),
            Op::Sub => Some(0x2du8),
            Op::Mul => Some(0x2au8),
            Op::Div => Some(0x2fu8),
            Op::Mod => Some(0x25u8),
            Op::Not => Some(0x21u8),
            Op::Gre => Some(0x60u8),
            Op::Rht => Some(0x3eu8),
            Op::Lft => Some(0x3cu8),
            Op::Upp => Some(0x5eu8),
            Op::Dwn => Some(0x76u8),
            Op::Rnd => Some(0x3fu8),
            Op::Hif => Some(0x5fu8),
            Op::Vif => Some(0x7cu8),
            Op::Str => Some(0x22u8),
            Op::Dup => Some(0x3au8),
            Op::Swp => Some(0x5cu8),
            Op::Pop => Some(0x24u8),
            Op::Iot => Some(0x2eu8),
            Op::Cot => Some(0x2cu8),
            Op::Skp => Some(0x23u8),
            Op::Put => Some(0x70u8),
            Op::Get => Some(0x67u8),
            Op::Iin => Some(0x26u8),
            Op::Cin => Some(0x7eu8),
            Op::End => Some(0x40u8),
            Op::Nop => None,
        }
    }

    /// The instruction that the byte `b` stands for: the one whose glyph it
    /// is, and `Nop` where there is none.
    pub open spec fn of(b: u8) -> Op {
        if exists|op: Op| op.glyph() == Some(b) {
            choose|op: Op| op.glyph() == Some(b)
        } else {
            Op::Nop
        }
    }

    /// No two instructions share a glyph.
    pub proof fn lemma_glyph_unique(a: Op, b: Op)
        requires
            a.glyph() is Some,
            a.glyph() == b.glyph(),
        ensures
            a == b,
    {
    }

    /// Decoding the glyph of an instruction gives that instruction back.
    pub proof fn lemma_of_glyph(op: Op)
        requires
            op.glyph() is Some,
        ensures
            Op::of(op.glyph().unwrap()) == op,
    {
        let b = op.glyph().unwrap();
        let found = choose|o: Op| o.glyph() == Some(b);
        Self::lemma_glyph_unique(op, found);
    }

    /// Decodes one byte of the grid. Every byte decodes; those without a
    /// meaning are `Nop`.
    pub fn from_u8(b: u8) -> (op: Op)
        ensures
            op == Op::of(b),
            op != Op::Nop ==> op.glyph() == Some(b),
            op == Op::Nop ==> forall|o: Op| o.glyph() != Some(b),
    {
        let op = match b {
            0x30 => Op::Int(0), // `0`
            0x31 => Op::Int(1), // `1`
            0x32 => Op::Int(2), // `2`
            0x33 => Op::Int(3), // `3`
            0x34 => Op::Int(4), // `4`
            0x35 => Op::Int(5), // `5`
            0x36 => Op::Int(6), // `6`
            0x37 => Op::Int(7), // `7`
            0x38 => Op::Int(8), // `8`
            0x39 => Op::Int(9), // `9`
            0x2b => Op::Add, // `+`
            0x2d => Op::Sub, // `-`
            0x2a => Op::Mul, // `*`
            0x2f => Op::Div, // `/`
            0x25 => Op::Mod, // `%`
            0x21 => Op::Not, // `!`
            0x60 => Op::Gre, // ```
            0x3e => Op::Rht, // `>`
            0x3c => Op::Lft, // `<`
            0x5e => Op::Upp, // `^`
            0x76 => Op::Dwn, // `v`
            0x3f => Op::Rnd, // `?`
            0x5f => Op::Hif, // `_`
            0x7c => Op::Vif, // `|`
            0x22 => Op::Str, // `"`
            0x3a => Op::Dup, // `:`
            0x5c => Op::Swp, // `\`
            0x24 => Op::Pop, // `$`
            0x2e => Op::Iot, // `.`
            0x2c => Op::Cot, // `,`
            0x23 => Op::Skp, // `#`
            0x70 => Op::Put, // `p`
            0x67 => Op::Get, // `g`
            0x26 => Op::Iin, // `&`
            0x7e => Op::Cin, // `~`
            0x40 => Op::End, // `@`
            _ => Op::Nop,
        };
        proof {
            if op != Op::Nop {
                Self::lemma_of_glyph(op);
            } else {
                assert forall|o: Op| o.glyph() != Some(b) by {
                    if o.glyph() == Some(b) {
                        match o {
                            Op::Int(i) => {
                                assert(b == 0x30 + i);
                            },
                            _ => {},
                        }
                    }
                }
            }
        }
        op
    }
}

} // verus!
