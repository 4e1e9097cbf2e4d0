//! The machine as mathematics: its state, and what one step makes of it.

use crate::area::Plane;
use crate::dir::{next_pos, Dir};
use crate::op::Op;
use crate::stack::{binary, dropped, duplicated, negated, swapped, top_or_zero};
use crate::text::{char_of, decimal, letter, number_of};
use vstd::prelude::*;

verus! {

/// The byte that opens and closes string mode.
pub const QUOTE: u8 = 0x22;

/// What a step asks of the host.
pub enum Effect {
    /// Nothing: take the next step.
    Continue,
    /// Write this text to the output and flush it, then take the next step.
    Output(Seq<char>),
    /// Read a line of input and take the same step again with it.
    Input,
    /// The program has ended.
    Halt,
}

/// The whole state of a running program.
pub struct Machine {
    /// The program grid.
    pub plane: Plane,
    /// The stack; its last element is the top.
    pub stack: Seq<u8>,
    /// The cursor, as `(row, column)`.
    pub pos: (int, int),
    /// The direction of travel.
    pub dir: Dir,
    /// Whether bytes are taken as text and pushed.
    pub string: bool,
    /// Whether the cell under the cursor is to be passed over.
    pub skip: bool,
}

impl Machine {
    /// The grid is rectangular, and each coordinate of the cursor lies on
    /// its axis, or is 0 on an axis without cells.
    pub open spec fn wf(self) -> bool {
        &&& self.plane.wf()
        &&& 0 <= self.pos.0 && (self.pos.0 < self.plane.rows() || self.pos.0 == 0)
        &&& 0 <= self.pos.1 && (self.pos.1 < self.plane.cols || self.pos.1 == 0)
    }

    /// The state a program starts in on the grid `plane`: cursor in the
    /// top left corner, travelling right, stack empty.
    pub open spec fn start(plane: Plane) -> Machine {
        Machine {
            plane,
            stack: Seq::empty(),
            pos: (0, 0),
            dir: Dir::Rht,
            string: false,
            skip: false,
        }
    }

    /// The byte under the cursor.
    pub open spec fn cell(self) -> u8 {
        self.plane.at(self.pos.0, self.pos.1)
    }

    /// This state with the cursor one cell further in the direction of
    /// travel, on the torus of the grid's present extents.
    pub open spec fn moved(self) -> Machine {
        Machine {
            pos: next_pos(self.dir, self.pos, (self.plane.rows() as int, self.plane.cols as int)),
            ..self
        }
    }

    /// This state with another stack.
    pub open spec fn with_stack(self, stack: Seq<u8>) -> Machine {
        Machine { stack, ..self }
    }

    /// This state with another direction of travel.
    pub open spec fn facing(self, dir: Dir) -> Machine {
        Machine { dir, ..self }
    }

    /// The state after `p`: column, row and value are popped and the value
    /// is written at `(row, column)`. With fewer than three values on the
    /// stack nothing changes.
    pub open spec fn after_put(self) -> Machine {
        let n = self.stack.len() as int;
        if n < 3 {
            self
        } else {
            Machine {
                plane: self.plane.put(
                    self.stack[n - 2] as nat,
                    self.stack[n - 1] as nat,
                    self.stack[n - 3],
                ),
                stack: self.stack.take(n - 3),
                ..self
            }
        }
    }

    /// The state after `g`: column and row are popped and the byte at
    /// `(row, column)` is pushed, a blank where the grid does not reach.
    /// With fewer than two values on the stack nothing changes.
    pub open spec fn after_get(self) -> Machine {
        let n = self.stack.len() as int;
        if n < 2 {
            self
        } else {
            self.with_stack(
                self.stack.take(n - 2).push(
                    self.plane.at(self.stack[n - 2] as int, self.stack[n - 1] as int),
                ),
            )
        }
    }

    /// Whether the next step is a random turn: the only step whose
    /// outcome depends on the direction drawn for it.
    pub open spec fn at_random_turn(self) -> bool {
        !self.skip && !self.string && Op::of(self.cell()) == Op::Rnd
    }

    /// What the instruction `op` does to the state, the cursor's move
    /// aside. `turn` is the direction that a random turn takes.
    ///
    /// The instructions of input and output and the last one are not
    /// told here but in `step`.
    pub open spec fn apply(self, op: Op, turn: Dir) -> Machine {
        match op {
            Op::Int(i) => self.with_stack(self.stack.push(i)),
            Op::Add | Op::Sub | Op::Mul | Op::Div | Op::Mod | Op::Gre => self.with_stack(
                binary(op, self.stack),
            ),
            Op::Not => self.with_stack(negated(self.stack)),
            Op::Rht => self.facing(Dir::Rht),
            Op::Lft => self.facing(Dir::Lft),
            Op::Upp => self.facing(Dir::Upp),
            Op::Dwn => self.facing(Dir::Dwn),
            Op::Rnd => self.facing(turn),
            Op::Hif => self.with_stack(dropped(self.stack)).facing(
                if top_or_zero(self.stack) == 0 {
                    Dir::Rht
                } else {
                    Dir::Lft
                },
            ),
            Op::Vif => self.with_stack(dropped(self.stack)).facing(
                if top_or_zero(self.stack) == 0 {
                    Dir::Dwn
                } else {
                    Dir::Upp
                },
            ),
            Op::Str => Machine { string: true, ..self },
            Op::Dup => self.with_stack(duplicated(self.stack)),
            Op::Swp => self.with_stack(swapped(self.stack)),
            Op::Pop => self.with_stack(dropped(self.stack)),
            Op::Skp => Machine { skip: true, ..self },
            Op::Put => self.after_put(),
            Op::Get => self.after_get(),
            Op::Iot | Op::Cot | Op::Iin | Op::Cin | Op::End | Op::Nop => self,
        }
    }

    /// One step of the machine: the state it leaves and what it asks of
    /// the host.
    ///
    /// `line` is the line of input that the host has read for this step,
    /// if it has read one; only an input instruction that finds a line
    /// looks at it. `turn` is the direction that a random turn takes.
    pub open spec fn step(self, line: Option<Seq<char>>, turn: Dir) -> (Machine, Effect) {
        if self.skip {
            (Machine { skip: false, ..self }.moved(), Effect::Continue)
        } else if self.string {
            if self.cell() == QUOTE {
                (Machine { string: false, ..self }.moved(), Effect::Continue)
            } else {
                (self.with_stack(self.stack.push(self.cell())).moved(), Effect::Continue)
            }
        } else {
            match Op::of(self.cell()) {
                Op::End => (self, Effect::Halt),
                Op::Iot => if self.stack.len() == 0 {
                    (self.moved(), Effect::Continue)
                } else {
                    (
                        self.with_stack(self.stack.drop_last()).moved(),
                        Effect::Output(decimal(self.stack.last())),
                    )
                },
                Op::Cot => if self.stack.len() == 0 {
                    (self.moved(), Effect::Continue)
                } else {
                    (
                        self.with_stack(self.stack.drop_last()).moved(),
                        Effect::Output(letter(self.stack.last())),
                    )
                },
                Op::Iin => match line {
                    None => (self, Effect::Input),
                    Some(l) => (
                        self.with_stack(self.stack.push(number_of(l))).moved(),
                        Effect::Continue,
                    ),
                },
                Op::Cin => match line {
                    None => (self, Effect::Input),
                    Some(l) => (
                        self.with_stack(self.stack.push(char_of(l))).moved(),
                        Effect::Continue,
                    ),
                },
                op => (self.apply(op, turn).moved(), Effect::Continue),
            }
        }
    }
}

/// A run of a program on input that is known beforehand: the machine, what
/// it has written, how many lines it has read, and whether it has ended.
pub struct Run {
    /// The state of the machine.
    pub machine: Machine,
    /// All that the program has written.
    pub output: Seq<char>,
    /// The number of lines of input that the program has asked for.
    pub read: nat,
    /// Whether the program has ended.
    pub halted: bool,
}

impl Run {
    /// A run that is about to begin on `machine`.
    pub open spec fn start(machine: Machine) -> Run {
        Run { machine, output: Seq::empty(), read: 0, halted: false }
    }

    /// The line that the read numbered `k` gets: line `k` of `input`, and
    /// an empty line once the input is used up.
    pub open spec fn line(input: Seq<Seq<char>>, k: nat) -> Seq<char> {
        if k < input.len() {
            input[k as int]
        } else {
            Seq::empty()
        }
    }

    /// One step of the machine with the host's part in it: what it asks to
    /// be written is added to the output, and a step that asks for input is
    /// taken again with the next line. A run that has ended stays as it is.
    pub open spec fn round(self, input: Seq<Seq<char>>, turn: Dir) -> Run {
        if self.halted {
            self
        } else {
            let (machine, effect) = self.machine.step(None, turn);
            match effect {
                Effect::Continue => Run { machine, ..self },
                Effect::Output(text) => Run { machine, output: self.output + text, ..self },
                Effect::Halt => Run { machine, halted: true, ..self },
                Effect::Input => Run {
                    machine: self.machine.step(Some(Run::line(input, self.read)), turn).0,
                    read: self.read + 1,
                    ..self
                },
            }
        }
    }

    /// The run after one round for each of `turns`, in order; each round's
    /// random turn, if it is one, takes the direction given for it.
    pub open spec fn rounds(self, input: Seq<Seq<char>>, turns: Seq<Dir>) -> Run
        decreases turns.len(),
    {
        if turns.len() == 0 {
            self
        } else {
            self.rounds(input, turns.drop_last()).round(input, turns.last())
        }
    }
}

} // verus!
