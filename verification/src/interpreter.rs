//! The interpreter: the machine's state in memory, and the step that
//! drives it.

use crate::area::{lemma_put, Area, Plane};
use crate::dir::{mv_cur, Dir};
use crate::machine::{Effect, Machine, Run, QUOTE};
use crate::op::Op;
use crate::source::{load, plane_of};
use crate::stack::{apply_binary, apply_dup, apply_not, apply_swap, pop_or_zero};
use crate::text::{decimal_text, letter_text, read_char, read_number};
use vstd::prelude::*;
use vstd::string::StringExecFns;

verus! {

/// What a step asks of the host.
#[derive(Debug, PartialEq, Eq)]
pub enum Action {
    /// Nothing: take the next step.
    Continue,
    /// Write this text to the output and flush it, then take the next step.
    Output(String),
    /// Read a line of input and take the same step again with it.
    Input,
    /// The program has ended.
    Halt,
}

impl View for Action {
    type V = Effect;

    open spec fn view(&self) -> Effect {
        match self {
            Action::Continue => Effect::Continue,
            Action::Output(text) => Effect::Output(text@),
            Action::Input => Effect::Input,
            Action::Halt => Effect::Halt,
        }
    }
}

/// The line that a step is given, as the machine sees it.
pub open spec fn line_view(line: Option<&str>) -> Option<Seq<char>> {
    match line {
        Some(text) => Some(text@),
        None => None,
    }
}

/// The texts of the lines `input`.
pub open spec fn texts(input: Seq<String>) -> Seq<Seq<char>> {
    input.map_values(|line: String| line@)
}

/// How a run on given input went.
#[derive(Debug, PartialEq, Eq)]
pub struct Outcome {
    /// All that the program wrote.
    pub output: String,
    /// The number of lines of input that the program asked for.
    pub lines_read: usize,
    /// Whether the program ended; if not, the run was cut short.
    pub halted: bool,
}

/// A program and the state of its run.
#[derive(Debug)]
pub struct Interpreter {
    area: Area,
    stack: Vec<u8>,
    pos: (usize, usize),
    dir: Dir,
    string: bool,
    skip: bool,
}

impl View for Interpreter {
    type V = Machine;

    closed spec fn view(&self) -> Machine {
        Machine {
            plane: self.area@,
            stack: self.stack@,
            pos: (self.pos.0 as int, self.pos.1 as int),
            dir: self.dir,
            string: self.string,
            skip: self.skip,
        }
    }
}

impl Default for Interpreter {
    /// An interpreter on a grid without cells.
    fn default() -> (interpreter: Interpreter)
        ensures
            interpreter@ == Machine::start(Plane::blank(0, 0)),
            interpreter@.wf(),
    {
        Interpreter {
            area: Area::new(0, 0),
            stack: Vec::new(),
            pos: (0, 0),
            dir: Dir::default(),
            string: false,
            skip: false,
        }
    }
}

impl Interpreter {
    /// An interpreter at the start of the program `s`.
    ///
    /// Each line of `s` is a row of the grid; shorter rows are filled up
    /// with blanks. The cursor is in the top left corner and travels
    /// right, the stack is empty.
    pub fn new(s: &str) -> (interpreter: Interpreter)
        ensures
            interpreter@ == Machine::start(plane_of(s@)),
            interpreter@.wf(),
    {
        Interpreter { area: load(s), ..Interpreter::default() }
    }

    /// The grid.
    pub fn area(&self) -> (area: &Area)
        ensures
            area@ == self@.plane,
    {
        &self.area
    }

    /// The stack; its last element is the top.
    pub fn stack(&self) -> (stack: &Vec<u8>)
        ensures
            stack@ == self@.stack,
    {
        &self.stack
    }

    /// The cursor, as `(row, column)`.
    pub fn position(&self) -> (pos: (usize, usize))
        ensures
            (pos.0 as int, pos.1 as int) == self@.pos,
    {
        self.pos
    }

    /// The direction of travel.
    pub fn direction(&self) -> (dir: Dir)
        ensures
            dir == self@.dir,
    {
        self.dir
    }

    /// Whether the machine is in string mode.
    pub fn in_string_mode(&self) -> (on: bool)
        ensures
            on == self@.string,
    {
        self.string
    }

    /// Whether the next step passes over the cell under the cursor.
    pub fn skipping(&self) -> (on: bool)
        ensures
            on == self@.skip,
    {
        self.skip
    }

    /// Whether the next step is a random turn.
    pub fn at_random_turn(&self) -> (yes: bool)
        requires
            self@.wf(),
        ensures
            yes == self@.at_random_turn(),
    {
        !self.skip && !self.string && Op::from_u8(self.area.read(self.pos.0, self.pos.1))
            == Op::Rnd
    }

    /// Moves the cursor one cell in the direction of travel.
    fn advance(&mut self)
        requires
            old(self)@.wf(),
        ensures
            final(self)@ == old(self)@.moved(),
            final(self)@.wf(),
    {
        let size = (self.area.rows(), self.area.cols());
        mv_cur(self.dir, &mut self.pos, size);
    }

    /// `p`: pops column, row and value and writes the value into the grid.
    /// Where a value is missing, what was popped is pushed back.
    fn put(&mut self)
        requires
            old(self)@.wf(),
        ensures
            final(self)@ == old(self)@.after_put(),
            final(self)@.wf(),
    {
        if let Some(col) = self.stack.pop() {
            if let Some(row) = self.stack.pop() {
                if let Some(value) = self.stack.pop() {
                    self.area.write(row as usize, col as usize, value);
                    proof {
                        lemma_put(old(self)@.plane, row as nat, col as nat, value);
                        assert(self.stack@ =~= old(self)@.stack.take(old(self)@.stack.len() - 3));
                    }
                } else {
                    self.stack.push(row);
                    self.stack.push(col);
                    assert(self.stack@ =~= old(self)@.stack);
                }
            } else {
                self.stack.push(col);
                assert(self.stack@ =~= old(self)@.stack);
            }
        }
    }

    /// `g`: pops column and row and pushes the byte found there. Where the
    /// row is missing, the column is pushed back.
    fn get(&mut self)
        requires
            old(self)@.wf(),
        ensures
            final(self)@ == old(self)@.after_get(),
            final(self)@.wf(),
    {
        if let Some(col) = self.stack.pop() {
            if let Some(row) = self.stack.pop() {
                let b = self.area.read(row as usize, col as usize);
                self.stack.push(b);
                assert(self.stack@ =~= old(self)@.after_get().stack);
            } else {
                self.stack.push(col);
                assert(self.stack@ =~= old(self)@.stack);
            }
        }
    }

    /// Takes one step, with `turn` as the direction of a random turn.
    ///
    /// `line` is the line of input read for this step, if one was read.
    /// A step that returns `Action::Input` has changed nothing: the host
    /// reads a line and takes the step again with it. A line that no
    /// input instruction finds is left unread.
    ///
    /// A bridge makes the next step pass over its cell whatever is in it,
    /// a quote too. In string mode a bridge is text like any other byte.
    pub fn step_with(&mut self, line: Option<&str>, turn: Dir) -> (action: Action)
        requires
            old(self)@.wf(),
        ensures
            (final(self)@, action@) == old(self)@.step(line_view(line), turn),
            final(self)@.wf(),
    {
        if self.skip {
            self.skip = false;
            self.advance();
            return Action::Continue;
        }
        let b = self.area.read(self.pos.0, self.pos.1);
        if self.string {
            if b == QUOTE {
                self.string = false;
            } else {
                self.stack.push(b);
            }
            self.advance();
            return Action::Continue;
        }
        let op = Op::from_u8(b);
        let mut action = Action::Continue;
        match op {
            Op::End => {
                return Action::Halt;
            },
            Op::Int(i) => {
                self.stack.push(i);
            },
            Op::Add | Op::Sub | Op::Mul | Op::Div | Op::Mod | Op::Gre => {
                apply_binary(&mut self.stack, op);
            },
            Op::Not => {
                apply_not(&mut self.stack);
            },
            Op::Rht => {
                self.dir = Dir::Rht;
            },
            Op::Lft => {
                self.dir = Dir::Lft;
            },
            Op::Upp => {
                self.dir = Dir::Upp;
            },
            Op::Dwn => {
                self.dir = Dir::Dwn;
            },
            Op::Rnd => {
                self.dir = turn;
            },
            Op::Hif => {
                self.dir = if pop_or_zero(&mut self.stack) == 0 {
                    Dir::Rht
                } else {
                    Dir::Lft
                };
            },
            Op::Vif => {
                self.dir = if pop_or_zero(&mut self.stack) == 0 {
                    Dir::Dwn
                } else {
                    Dir::Upp
                };
            },
            Op::Str => {
                self.string = true;
            },
            Op::Dup => {
                apply_dup(&mut self.stack);
            },
            Op::Swp => {
                apply_swap(&mut self.stack);
            },
            Op::Pop => {
                let _ = pop_or_zero(&mut self.stack);
            },
            Op::Iot => {
                if let Some(a) = self.stack.pop() {
                    action = Action::Output(decimal_text(a));
                }
            },
            Op::Cot => {
                if let Some(a) = self.stack.pop() {
                    action = Action::Output(letter_text(a));
                }
            },
            Op::Skp => {
                self.skip = true;
            },
            Op::Put => {
                self.put();
            },
            Op::Get => {
                self.get();
            },
            Op::Iin => match line {
                Some(text) => {
                    self.stack.push(read_number(text));
                },
                None => {
                    return Action::Input;
                },
            },
            Op::Cin => match line {
                Some(text) => {
                    self.stack.push(read_char(text));
                },
                None => {
                    return Action::Input;
                },
            },
            Op::Nop => {},
        }
        self.advance();
        action
    }

    /// Takes one step. A random turn takes a direction drawn for it, each
    /// of the four as likely as the others; otherwise as `step_with`.
    pub fn step(&mut self, line: Option<&str>) -> (action: Action)
        requires
            old(self)@.wf(),
        ensures
            exists|turn: Dir|
                (final(self)@, action@) == #[trigger] old(self)@.step(line_view(line), turn),
            !old(self)@.at_random_turn() ==> forall|turn: Dir|
                (final(self)@, action@) == #[trigger] old(self)@.step(line_view(line), turn),
            final(self)@.wf(),
    {
        let turn = if self.at_random_turn() {
            Dir::random()
        } else {
            Dir::Rht
        };
        let action = self.step_with(line, turn);
        proof {
            assert((self@, action@) == old(self)@.step(line_view(line), turn));
        }
        action
    }

    /// Runs the program on the lines `input` until it ends, for `limit`
    /// steps at most, and returns what it wrote.
    ///
    /// Each input instruction takes the next line of `input`; once they
    /// are used up it finds an empty line, as at the end of a stream.
    /// A random turn takes a direction drawn for it.
    pub fn run(&mut self, input: &Vec<String>, limit: usize) -> (outcome: Outcome)
        requires
            old(self)@.wf(),
        ensures
            final(self)@.wf(),
            exists|turns: Seq<Dir>|
                turns.len() <= limit && (outcome.halted || turns.len() == limit) && (#[trigger] Run::start(
                    old(self)@,
                ).rounds(texts(input@), turns)) == (Run {
                    machine: final(self)@,
                    output: outcome.output@,
                    read: outcome.lines_read as nat,
                    halted: outcome.halted,
                }),
    {
        let mut output = String::new();
        let mut lines_read: usize = 0;
        let mut halted = false;
        let mut taken: usize = 0;
        let ghost mut turns: Seq<Dir> = Seq::empty();
        while taken < limit && !halted
            invariant
                self@.wf(),
                taken <= limit,
                lines_read <= taken,
                turns.len() == taken,
                Run::start(old(self)@).rounds(texts(input@), turns) == (Run {
                    machine: self@,
                    output: output@,
                    read: lines_read as nat,
                    halted,
                }),
            decreases limit - taken + if halted { 0int } else { 1int },
        {
            let ghost before = Run {
                machine: self@,
                output: output@,
                read: lines_read as nat,
                halted,
            };
            let turn = if self.at_random_turn() {
                Dir::random()
            } else {
                Dir::Rht
            };
            let ghost after = before.round(texts(input@), turn);
            match self.step_with(None, turn) {
                Action::Continue => {},
                Action::Output(text) => {
                    output.append(text.as_str());
                },
                Action::Halt => {
                    halted = true;
                },
                Action::Input => {
                    if lines_read < input.len() {
                        let line = input[lines_read].as_str();
                        assert(line@ == Run::line(texts(input@), lines_read as nat));
                        let _ = self.step_with(Some(line), turn);
                    } else {
                        proof {
                            reveal_strlit("");
                        }
                        let line = "";
                        assert(line@ =~= Run::line(texts(input@), lines_read as nat));
                        let _ = self.step_with(Some(line), turn);
                    }
                    lines_read = lines_read + 1;
                },
            }
            taken = taken + 1;
            proof {
                assert(turns.push(turn).drop_last() =~= turns);
                turns = turns.push(turn);
                assert(after.machine == self@);
                assert(after.output == output@);
                assert(after.read == lines_read);
                assert(after.halted == halted);
            }
        }
        Outcome { output, lines_read, halted }
    }
}

} // verus!
