//! What holds of the machine on every input.

use crate::area::{lemma_grown, lemma_put, Plane, BLANK};
use crate::dir::{lap, travel, Dir};
use crate::machine::{Machine, Run, QUOTE};
use crate::op::Op;
use crate::source::{lemma_final_feed, lemma_one_line, lemma_single_row, plane_of, LF};
use crate::stack::{binary, combine, swapped};
use crate::text::{digit, low_byte};
use vstd::arithmetic::div_mod::{
    lemma_add_mod_noop, lemma_fundamental_div_mod_converse, lemma_mod_twice, lemma_small_mod,
};
use vstd::prelude::*;

verus! {

/// Subtraction undoes addition, whatever wraps: adding `b` to `a` and
/// taking `b` away again gives `a`, as bytes and on any stack.
pub proof fn law_add_then_sub(s: Seq<u8>, a: u8, b: u8)
    ensures
        combine(Op::Sub, combine(Op::Add, a, b), b) == a,
        binary(Op::Sub, binary(Op::Add, s.push(a).push(b)).push(b)) == s.push(a),
{
    let sum = combine(Op::Add, a, b);
    let t = s.push(a).push(b);
    assert(t.take(t.len() - 2) =~= s);
    assert(binary(Op::Add, t) == s.push(sum));
    let u = s.push(sum).push(b);
    assert(u.take(u.len() - 2) =~= s);
}

/// An operator that finds too few operands loses none: `+` leaves an
/// empty stack empty, and a swap leaves a single value where it is.
pub proof fn law_underflow(x: u8)
    ensures
        binary(Op::Add, Seq::<u8>::empty()) == Seq::<u8>::empty(),
        binary(Op::Add, seq![x]) == seq![x],
        swapped(seq![x]) == seq![x],
{
}

/// Where the cursor is after `steps` steps in one direction: the
/// coordinate on the axis of travel has gone up or down by `steps`,
/// modulo the length of the axis; the other has not changed.
pub proof fn lemma_travel(dir: Dir, pos: (int, int), size: (int, int), steps: nat)
    requires
        size.0 > 0,
        size.1 > 0,
        0 <= pos.0 < size.0,
        0 <= pos.1 < size.1,
    ensures
        travel(dir, pos, size, steps) == match dir {
            Dir::Rht => (pos.0, (pos.1 + steps) % size.1),
            Dir::Lft => (pos.0, (pos.1 - steps) % size.1),
            Dir::Upp => ((pos.0 - steps) % size.0, pos.1),
            Dir::Dwn => ((pos.0 + steps) % size.0, pos.1),
        },
    decreases steps,
{
    if steps == 0 {
        lemma_small_mod(pos.0 as nat, size.0 as nat);
        lemma_small_mod(pos.1 as nat, size.1 as nat);
    } else {
        lemma_travel(dir, pos, size, (steps - 1) as nat);
        let k = steps - 1;
        match dir {
            Dir::Rht => lemma_mod_step(pos.1 + k, 1, size.1),
            Dir::Lft => lemma_mod_step(pos.1 - k, -1, size.1),
            Dir::Upp => lemma_mod_step(pos.0 - k, -1, size.0),
            Dir::Dwn => lemma_mod_step(pos.0 + k, 1, size.0),
        }
    }
}

/// Reducing before a step and after it is reducing after it.
proof fn lemma_mod_step(x: int, d: int, n: int)
    requires
        n > 0,
    ensures
        (x % n + d) % n == (x + d) % n,
{
    lemma_add_mod_noop(x, d, n);
    lemma_mod_twice(x, n);
    lemma_add_mod_noop(x % n, d, n);
}

/// A coordinate shifted by `d` and reduced: where it is, for a shift of
/// at most one lap either way.
proof fn lemma_shift_mod(x: int, d: int, n: int)
    requires
        n > 0,
        0 <= x < n,
        -n <= d <= n,
    ensures
        (x + d) % n == if x + d < 0 {
            x + d + n
        } else if x + d >= n {
            x + d - n
        } else {
            x + d
        },
{
    if x + d < 0 {
        lemma_fundamental_div_mod_converse(x + d, n, -1, x + d + n);
    } else if x + d >= n {
        lemma_fundamental_div_mod_converse(x + d, n, 1, x + d - n);
    } else {
        lemma_small_mod((x + d) as nat, n as nat);
    }
}

/// The grid is a torus: travelling in one direction, the cursor is back
/// on the cell it started from after as many steps as the axis of travel
/// has cells, and not before.
pub proof fn law_torus(dir: Dir, pos: (int, int), size: (int, int), steps: nat)
    requires
        size.0 > 0,
        size.1 > 0,
        0 <= pos.0 < size.0,
        0 <= pos.1 < size.1,
    ensures
        travel(dir, pos, size, lap(dir, size) as nat) == pos,
        0 < steps < lap(dir, size) ==> travel(dir, pos, size, steps) != pos,
{
    let n = lap(dir, size);
    let x = match dir {
        Dir::Rht | Dir::Lft => pos.1,
        Dir::Upp | Dir::Dwn => pos.0,
    };
    lemma_travel(dir, pos, size, n as nat);
    lemma_travel(dir, pos, size, steps);
    lemma_shift_mod(x, n, n);
    lemma_shift_mod(x, -n, n);
    if 0 < steps < n {
        lemma_shift_mod(x, steps as int, n);
        lemma_shift_mod(x, -(steps as int), n);
    }
}

/// Whether no cell of `plane` holds an instruction.
pub open spec fn idle(plane: Plane) -> bool {
    forall|r: int, c: int| Op::of(#[trigger] plane.at(r, c)) == Op::Nop
}

/// On a grid without instructions the machine only moves: after any
/// number of rounds the cursor is where that many steps in the direction
/// of travel lead on the torus of the grid, and nothing else has changed.
pub proof fn law_idle_travel(m: Machine, input: Seq<Seq<char>>, turns: Seq<Dir>)
    requires
        idle(m.plane),
        !m.string,
        !m.skip,
    ensures
        Run::start(m).rounds(input, turns) == Run::start(
            Machine {
                pos: travel(
                    m.dir,
                    m.pos,
                    (m.plane.rows() as int, m.plane.cols as int),
                    turns.len(),
                ),
                ..m
            },
        ),
    decreases turns.len(),
{
    if turns.len() > 0 {
        law_idle_travel(m, input, turns.drop_last());
        let size = (m.plane.rows() as int, m.plane.cols as int);
        let before = travel(m.dir, m.pos, size, turns.drop_last().len());
        assert(Op::of(m.plane.at(before.0, before.1)) == Op::Nop);
    }
}

/// Writing grows the grid and never shrinks it. After a write at
/// `(r, c)` the grid is rectangular, has at least `r + 1` rows and
/// `c + 1` columns and no fewer than before, and holds the byte written;
/// every cell it had before reads as before, and every other new cell
/// is blank.
pub proof fn law_growth(p: Plane, r: nat, c: nat, v: u8)
    requires
        p.wf(),
    ensures
        p.put(r, c, v).wf(),
        p.put(r, c, v).rows() >= p.rows(),
        p.put(r, c, v).cols >= p.cols,
        p.put(r, c, v).rows() >= r + 1,
        p.put(r, c, v).cols >= c + 1,
        p.put(r, c, v).at(r as int, c as int) == v,
        forall|i: int, j: int|
            p.holds(i, j) && !(i == r && j == c) ==> (#[trigger] p.put(r, c, v).at(i, j)) == p.at(i, j),
        forall|i: int, j: int|
            !p.holds(i, j) && !(i == r && j == c) ==> (#[trigger] p.put(r, c, v).at(i, j)) == BLANK,
{
    lemma_put(p, r, c, v);
    lemma_grown(p, r, c);
}

/// A step never shrinks the grid, and leaves the machine well formed.
pub proof fn law_step_keeps_extents(m: Machine, line: Option<Seq<char>>, turn: Dir)
    requires
        m.wf(),
    ensures
        m.step(line, turn).0.wf(),
        m.step(line, turn).0.plane.rows() >= m.plane.rows(),
        m.step(line, turn).0.plane.cols >= m.plane.cols,
{
    let n = m.stack.len() as int;
    if n >= 3 {
        law_growth(m.plane, m.stack[n - 2] as nat, m.stack[n - 1] as nat, m.stack[n - 3]);
    }
}

/// Only a random turn depends on the direction drawn: every other step
/// comes out the same whatever direction it is given.
pub proof fn law_turn_only_at_random(m: Machine, line: Option<Seq<char>>, a: Dir, b: Dir)
    requires
        !m.at_random_turn(),
    ensures
        m.step(line, a) == m.step(line, b),
{
}

/// The program that pushes `digits` one after the other and then stops.
pub open spec fn digit_program(digits: Seq<u8>) -> Seq<char> {
    Seq::new(digits.len(), |i: int| digit(digits[i])).push('@')
}

/// The machine on its way along the first row: at column `k`, travelling
/// right, in no special mode.
pub open spec fn along(plane: Plane, stack: Seq<u8>, k: int, string: bool) -> Machine {
    Machine { plane, stack, pos: (0, k), dir: Dir::Rht, string, skip: false }
}

/// The run of a digit program after as many rounds as `turns` has
/// directions: on its way while digits are left, ended after that.
proof fn lemma_digit_rounds(digits: Seq<u8>, input: Seq<Seq<char>>, turns: Seq<Dir>)
    requires
        forall|i: int| 0 <= i < digits.len() ==> digits[i] <= 9,
    ensures
        ({
            let plane = plane_of(digit_program(digits));
            let run = Run::start(Machine::start(plane)).rounds(input, turns);
            let k = turns.len() as int;
            &&& run.output == Seq::<char>::empty()
            &&& run.read == 0
            &&& run.halted == (k > digits.len())
            &&& k <= digits.len() ==> run.machine == along(plane, digits.take(k), k, false)
            &&& k > digits.len() ==> run.machine == along(
                plane,
                digits,
                digits.len() as int,
                false,
            )
        }),
    decreases turns.len(),
{
    let text = digit_program(digits);
    let plane = plane_of(text);
    let n = digits.len() as int;
    assert forall|i: int| 0 <= i < text.len() implies text[i] != LF by {
        if i < n {
            assert(text[i] == digit(digits[i]));
        }
    }
    lemma_single_row(text);
    if turns.len() == 0 {
        assert(digits.take(0) =~= Seq::<u8>::empty());
    } else {
        lemma_digit_rounds(digits, input, turns.drop_last());
        let before = Run::start(Machine::start(plane)).rounds(input, turns.drop_last());
        let k = turns.len() - 1;
        if k < n {
            let d = digits[k];
            assert(text[k] == digit(d));
            assert(plane.at(0, k) == low_byte(text[k]));
            assert(low_byte(digit(d)) == 0x30 + d);
            Op::lemma_of_glyph(Op::Int(d));
            lemma_small_mod((k + 1) as nat, plane.cols);
            assert(digits.take(k).push(d) =~= digits.take(k + 1));
        } else if k == n {
            assert(digits.take(n) =~= digits);
            assert(text[n] == '@');
            assert(plane.at(0, n) == low_byte(text[n]));
            assert(low_byte('@') == 0x40);
            Op::lemma_of_glyph(Op::End);
        }
    }
}

/// A program of digits and a final `@`, with or without a line feed after
/// it, ends with exactly those digits on the stack, the first pushed at
/// the bottom; it writes nothing and reads nothing. It has ended after one
/// round more than it has digits, whatever the input and the directions
/// drawn.
pub proof fn law_digit_program(
    text: Seq<char>,
    digits: Seq<u8>,
    input: Seq<Seq<char>>,
    turns: Seq<Dir>,
)
    requires
        forall|i: int| 0 <= i < digits.len() ==> digits[i] <= 9,
        text == digit_program(digits) || text == digit_program(digits).push(LF),
        turns.len() > digits.len(),
    ensures
        ({
            let run = Run::start(Machine::start(plane_of(text))).rounds(input, turns);
            &&& run.halted
            &&& run.machine.stack == digits
            &&& run.output == Seq::<char>::empty()
            &&& run.read == 0
        }),
{
    let program = digit_program(digits);
    assert forall|i: int| 0 <= i < program.len() implies program[i] != LF by {
        if i < digits.len() {
            assert(program[i] == digit(digits[i]));
        }
    }
    lemma_one_line(program);
    lemma_final_feed(program);
    lemma_digit_rounds(digits, input, turns);
}

/// The program that is the text `body` between two quotes.
pub open spec fn quoted(body: Seq<char>) -> Seq<char> {
    seq!['"'] + body + seq!['"']
}

/// The bytes that the characters of `body` are stored as.
pub open spec fn bytes_of(body: Seq<char>) -> Seq<u8> {
    Seq::new(body.len(), |i: int| low_byte(body[i]))
}

/// The run of a quoted text after as many rounds as `turns` has
/// directions, up to the round that reads the closing quote.
proof fn lemma_quoted_rounds(body: Seq<char>, input: Seq<Seq<char>>, turns: Seq<Dir>)
    requires
        forall|i: int| 0 <= i < body.len() ==> body[i] != LF && low_byte(#[trigger] body[i]) != QUOTE,
        turns.len() <= body.len() + 1,
    ensures
        ({
            let plane = plane_of(quoted(body));
            let run = Run::start(Machine::start(plane)).rounds(input, turns);
            let k = turns.len() as int;
            &&& run.output == Seq::<char>::empty()
            &&& run.read == 0
            &&& !run.halted
            &&& k == 0 ==> run.machine == along(plane, Seq::empty(), 0, false)
            &&& k > 0 ==> run.machine == along(plane, bytes_of(body).take(k - 1), k, true)
        }),
    decreases turns.len(),
{
    let text = quoted(body);
    let plane = plane_of(text);
    let n = body.len() as int;
    assert forall|i: int| 0 <= i < text.len() implies text[i] != LF by {
        if 0 < i <= n {
            assert(text[i] == body[i - 1]);
        }
    }
    lemma_single_row(text);
    if turns.len() > 0 {
        lemma_quoted_rounds(body, input, turns.drop_last());
        let k = turns.len() - 1;
        lemma_small_mod((k + 1) as nat, plane.cols);
        assert(plane.at(0, k) == low_byte(text[k]));
        if k == 0 {
            assert(text[0] == '"');
            assert(low_byte('"') == QUOTE);
            Op::lemma_of_glyph(Op::Str);
            assert(bytes_of(body).take(0) =~= Seq::<u8>::empty());
        } else {
            assert(text[k] == body[k - 1]);
            assert(bytes_of(body).take(k - 1).push(low_byte(body[k - 1])) =~= bytes_of(body).take(
                k,
            ));
        }
    }
}

/// String mode takes text as it is written: a quote, a text and a
/// closing quote leave the bytes of the text on the stack, the first at
/// the bottom, and string mode off; the closing quote is not pushed.
/// This holds of every text on one row whose bytes are no quote.
pub proof fn law_string_mode(body: Seq<char>, input: Seq<Seq<char>>, turns: Seq<Dir>)
    requires
        forall|i: int| 0 <= i < body.len() ==> body[i] != LF && low_byte(#[trigger] body[i]) != QUOTE,
        turns.len() == body.len() + 2,
    ensures
        ({
            let run = Run::start(Machine::start(plane_of(quoted(body)))).rounds(input, turns);
            &&& run.machine.stack == bytes_of(body)
            &&& !run.machine.string
            &&& !run.halted
            &&& run.output == Seq::<char>::empty()
        }),
{
    let text = quoted(body);
    let plane = plane_of(text);
    let n = body.len() as int;
    assert forall|i: int| 0 <= i < text.len() implies text[i] != LF by {
        if 0 < i <= n {
            assert(text[i] == body[i - 1]);
        }
    }
    lemma_single_row(text);
    lemma_quoted_rounds(body, input, turns.drop_last());
    assert(plane.at(0, n + 1) == low_byte(text[n + 1]));
    assert(text[n + 1] == '"');
    assert(low_byte('"') == QUOTE);
    assert(bytes_of(body).take(n) =~= bytes_of(body));
}

} // verus!
