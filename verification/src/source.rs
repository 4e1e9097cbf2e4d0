//! From program text to the grid it is laid out on.
//!
//! A line feed ends a row. Text after the last line feed is a row of its
//! own unless it is empty. The grid is as wide as the widest row takes
//! bytes in UTF-8, and each character is stored as its code point modulo
//! 256, one character to a cell.

use crate::area::{lemma_plane_eq, lemma_put, Area, Plane, BLANK};
use crate::text::{byte_of, low_byte};
use vstd::prelude::*;
use vstd::std_specs::iter::IteratorSpec;
use vstd::utf8::{encode_scalar, encode_utf8};

verus! {

/// The character that ends a row.
pub const LF: char = '\n';

/// The number of bytes that `c` takes in UTF-8.
pub open spec fn utf8_len(c: char) -> nat {
    if (c as u32) < 0x80 {
        1
    } else if (c as u32) < 0x800 {
        2
    } else if (c as u32) < 0x10000 {
        3
    } else {
        4
    }
}

/// The number of bytes that `line` takes in UTF-8.
pub open spec fn width(line: Seq<char>) -> nat
    decreases line.len(),
{
    if line.len() == 0 {
        0
    } else {
        width(line.drop_last()) + utf8_len(line.last())
    }
}

/// What follows the last line feed of `text`; all of it where it has none.
pub open spec fn tail(text: Seq<char>) -> Seq<char>
    decreases text.len(),
{
    if text.len() == 0 || text.last() == LF {
        Seq::empty()
    } else {
        tail(text.drop_last()).push(text.last())
    }
}

/// The rows of `text` that a line feed ends, without their line feeds.
pub open spec fn ended(text: Seq<char>) -> Seq<Seq<char>>
    decreases text.len(),
{
    if text.len() == 0 {
        Seq::empty()
    } else if text.last() == LF {
        ended(text.drop_last()).push(tail(text.drop_last()))
    } else {
        ended(text.drop_last())
    }
}

/// The rows of `text`: those that a line feed ends, and what follows the
/// last line feed where that is not empty.
pub open spec fn lines(text: Seq<char>) -> Seq<Seq<char>> {
    if tail(text).len() > 0 {
        ended(text).push(tail(text))
    } else {
        ended(text)
    }
}

/// The width of the widest of the rows `ls`; 0 where there is none.
pub open spec fn widest(ls: Seq<Seq<char>>) -> nat
    decreases ls.len(),
{
    if ls.len() == 0 {
        0
    } else if widest(ls.drop_last()) >= width(ls.last()) {
        widest(ls.drop_last())
    } else {
        width(ls.last())
    }
}

/// The byte at `(r, c)` of the grid of the rows `ls`: the character
/// written there, a blank where the row is shorter or missing.
pub open spec fn cell_of(ls: Seq<Seq<char>>, r: int, c: int) -> u8 {
    if 0 <= r < ls.len() && 0 <= c < ls[r].len() {
        low_byte(ls[r][c])
    } else {
        BLANK
    }
}

/// The grid that `text` is laid out on.
pub open spec fn plane_of(text: Seq<char>) -> Plane {
    let ls = lines(text);
    Plane {
        cols: widest(ls),
        cells: Seq::new(ls.len(), |r: int| Seq::new(widest(ls), |c: int| cell_of(ls, r, c))),
    }
}

/// How the rows of a text change with one more character at its end.
pub proof fn lemma_scan_push(p: Seq<char>, c: char)
    ensures
        c == LF ==> tail(p.push(c)) == Seq::<char>::empty() && ended(p.push(c)) == ended(p).push(
            tail(p),
        ),
        c != LF ==> tail(p.push(c)) == tail(p).push(c) && ended(p.push(c)) == ended(p),
{
    assert(p.push(c).drop_last() =~= p);
    assert(p.push(c).last() == c);
}

/// One more character widens a line by the bytes it takes.
pub proof fn lemma_width_push(line: Seq<char>, c: char)
    ensures
        width(line.push(c)) == width(line) + utf8_len(c),
{
    assert(line.push(c).drop_last() =~= line);
}

/// A line takes at least one byte for each of its characters.
pub proof fn lemma_width_ge_len(line: Seq<char>)
    ensures
        width(line) >= line.len(),
    decreases line.len(),
{
    if line.len() > 0 {
        lemma_width_ge_len(line.drop_last());
    }
}

/// With one more row, the widest is the wider of that row and the widest
/// before.
pub proof fn lemma_widest_push(ls: Seq<Seq<char>>, l: Seq<char>)
    ensures
        widest(ls.push(l)) == if widest(ls) >= width(l) {
            widest(ls)
        } else {
            width(l)
        },
{
    assert(ls.push(l).drop_last() =~= ls);
}

/// One more character takes no row away and narrows none.
pub proof fn lemma_lines_grow(p: Seq<char>, c: char)
    ensures
        lines(p).len() <= lines(p.push(c)).len(),
        widest(lines(p)) <= widest(lines(p.push(c))),
{
    lemma_scan_push(p, c);
    lemma_widest_push(ended(p), tail(p));
    if c == LF {
        if tail(p).len() == 0 {
            assert(tail(p) =~= Seq::<char>::empty());
        }
    } else {
        lemma_widest_push(ended(p), tail(p).push(c));
        lemma_width_push(tail(p), c);
    }
}

/// The rows of a prefix of a text fit in the grid of the whole text.
pub proof fn lemma_prefix_fits(text: Seq<char>, i: int)
    requires
        0 <= i <= text.len(),
    ensures
        lines(text.take(i)).len() <= lines(text).len(),
        widest(lines(text.take(i))) <= widest(lines(text)),
    decreases text.len() - i,
{
    if i == text.len() {
        assert(text.take(i) =~= text);
    } else {
        lemma_prefix_fits(text, i + 1);
        assert(text.take(i + 1) =~= text.take(i).push(text[i]));
        lemma_lines_grow(text.take(i), text[i]);
    }
}

/// A character that is no line feed lands in the cell after the last
/// one of the last row, and changes no other cell.
pub proof fn lemma_cells_push(p: Seq<char>, c: char)
    requires
        c != LF,
    ensures
        forall|i: int, j: int|
            (#[trigger] cell_of(lines(p.push(c)), i, j)) == if i == ended(p).len() && j == tail(p).len() {
                low_byte(c)
            } else {
                cell_of(lines(p), i, j)
            },
{
    lemma_scan_push(p, c);
    let before = lines(p);
    let after = lines(p.push(c));
    let k = ended(p).len() as int;
    assert(after == ended(p).push(tail(p).push(c)));
    assert forall|i: int, j: int|
        (#[trigger] cell_of(after, i, j)) == if i == k && j == tail(p).len() {
            low_byte(c)
        } else {
            cell_of(before, i, j)
        } by {
        if 0 <= i < k {
            assert(after[i] == ended(p)[i]);
            assert(before[i] == ended(p)[i]);
        } else if i == k {
            assert(after[i] == tail(p).push(c));
            if tail(p).len() > 0 {
                assert(before[i] == tail(p));
            }
        }
    }
}

/// A line feed changes no cell.
pub proof fn lemma_cells_feed(p: Seq<char>)
    ensures
        forall|i: int, j: int| (#[trigger] cell_of(lines(p.push(LF)), i, j)) == cell_of(lines(p), i, j),
{
    lemma_scan_push(p, LF);
    let before = lines(p);
    let after = lines(p.push(LF));
    let k = ended(p).len() as int;
    assert(after == ended(p).push(tail(p)));
    assert forall|i: int, j: int| (#[trigger] cell_of(after, i, j)) == cell_of(before, i, j) by {
        if 0 <= i < k {
            assert(after[i] == ended(p)[i]);
            assert(before[i] == ended(p)[i]);
        } else if i == k {
            assert(after[i] == tail(p));
            if tail(p).len() > 0 {
                assert(before[i] == tail(p));
            }
        }
    }
}

/// A text without a line feed is one row.
pub proof fn lemma_one_line(text: Seq<char>)
    requires
        forall|i: int| 0 <= i < text.len() ==> text[i] != LF,
    ensures
        tail(text) == text,
        ended(text).len() == 0,
    decreases text.len(),
{
    if text.len() > 0 {
        lemma_one_line(text.drop_last());
        assert(tail(text.drop_last()).push(text.last()) =~= text);
    } else {
        assert(tail(text) =~= text);
    }
}

/// The grid of a text of one row: one row, at least as wide as the text
/// is long, with the text's characters in its first cells.
pub proof fn lemma_single_row(text: Seq<char>)
    requires
        text.len() > 0,
        forall|i: int| 0 <= i < text.len() ==> text[i] != LF,
    ensures
        plane_of(text).wf(),
        plane_of(text).rows() == 1,
        plane_of(text).cols == width(text),
        plane_of(text).cols >= text.len(),
        forall|j: int| 0 <= j < text.len() ==> (#[trigger] plane_of(text).at(0, j)) == low_byte(text[j]),
{
    lemma_one_line(text);
    lemma_width_ge_len(text);
    assert(ended(text) =~= Seq::<Seq<char>>::empty());
    assert(lines(text) =~= seq![text]);
    lemma_widest_push(Seq::<Seq<char>>::empty(), text);
    assert(Seq::<Seq<char>>::empty().push(text) =~= seq![text]);
}

/// A line feed after the last row adds nothing to the grid.
pub proof fn lemma_final_feed(text: Seq<char>)
    requires
        tail(text).len() > 0,
    ensures
        plane_of(text.push(LF)) == plane_of(text),
{
    lemma_scan_push(text, LF);
    assert(tail(text.push(LF)) =~= Seq::<char>::empty());
    assert(lines(text.push(LF)) == lines(text));
}

/// The number of bytes that `c` takes in UTF-8.
fn char_width(c: char) -> (n: usize)
    ensures
        n == utf8_len(c),
        n == encode_scalar(c as u32).len(),
{
    let code: u32 = c as u32;
    if code < 0x80 {
        1
    } else if code < 0x800 {
        2
    } else if code < 0x10000 {
        3
    } else {
        4
    }
}

/// The extents of the grid of `text`: the number of its rows, and the
/// width of the widest.
pub fn measure(text: &str) -> (size: (usize, usize))
    ensures
        size.0 == lines(text@).len(),
        size.1 == widest(lines(text@)),
{
    let total = text.as_bytes().len();
    let mut done: usize = 0;
    let mut most: usize = 0;
    let mut here: usize = 0;
    let mut open = false;
    let ghost mut used: int = 0;
    proof {
        assert(text@.take(0) =~= Seq::<char>::empty());
        assert(text@.skip(0) =~= text@);
    }
    for c in it: text.chars()
        invariant
            it.seq() == text@,
            total == encode_utf8(text@).len(),
            done == ended(text@.take(it.index() as int)).len(),
            most == widest(ended(text@.take(it.index() as int))),
            here == width(tail(text@.take(it.index() as int))),
            open == (tail(text@.take(it.index() as int)).len() > 0),
            done + tail(text@.take(it.index() as int)).len() <= it.index(),
            it.index() <= used,
            most <= used,
            here <= used,
            used + encode_utf8(text@.skip(it.index() as int)).len() == total,
    {
        let ghost i = it.index() as int;
        let ghost p = text@.take(i);
        let n = char_width(c);
        proof {
            assert(text@.take(i + 1) =~= p.push(c));
            assert(text@.skip(i).drop_first() =~= text@.skip(i + 1));
            assert(encode_utf8(text@.skip(i)) == encode_scalar(c as u32) + encode_utf8(
                text@.skip(i + 1),
            ));
            lemma_scan_push(p, c);
            lemma_width_push(tail(p), c);
            lemma_widest_push(ended(p), tail(p));
            used = used + n;
        }
        if c == LF {
            if here > most {
                most = here;
            }
            done = done + 1;
            here = 0;
            open = false;
        } else {
            here = here + n;
            open = true;
        }
    }
    proof {
        assert(text@.take(text@.len() as int) =~= text@);
        lemma_widest_push(ended(text@), tail(text@));
    }
    let rows = if open {
        done + 1
    } else {
        done
    };
    let cols = if here > most {
        here
    } else {
        most
    };
    (rows, cols)
}

/// Lays `text` out on a grid.
pub fn load(text: &str) -> (area: Area)
    ensures
        area@ == plane_of(text@),
        area@.wf(),
{
    let (rows, cols) = measure(text);
    let mut area = Area::new(rows, cols);
    let mut row: usize = 0;
    let mut col: usize = 0;
    proof {
        assert(text@.take(0) =~= Seq::<char>::empty());
    }
    for c in it: text.chars()
        invariant
            it.seq() == text@,
            rows == lines(text@).len(),
            cols == widest(lines(text@)),
            area@.wf(),
            area@.rows() == rows,
            area@.cols == cols,
            row == ended(text@.take(it.index() as int)).len(),
            col == tail(text@.take(it.index() as int)).len(),
            forall|i: int, j: int|
                (#[trigger] area@.at(i, j)) == cell_of(lines(text@.take(it.index() as int)), i, j),
    {
        let ghost i = it.index() as int;
        let ghost p = text@.take(i);
        proof {
            assert(text@.take(i + 1) =~= p.push(c));
            lemma_scan_push(p, c);
            lemma_prefix_fits(text@, i + 1);
        }
        if c == LF {
            proof {
                lemma_cells_feed(p);
            }
            row = row + 1;
            col = 0;
        } else {
            proof {
                lemma_cells_push(p, c);
                lemma_width_ge_len(tail(p).push(c));
                lemma_widest_push(ended(p), tail(p).push(c));
                lemma_put(area@, row as nat, col as nat, low_byte(c));
            }
            let cell = area.pos((row, col));
            *cell = byte_of(c);
            col = col + 1;
        }
    }
    proof {
        assert(text@.take(text@.len() as int) =~= text@);
        let want = plane_of(text@);
        assert forall|i: int, j: int| area@.holds(i, j) implies area@.at(i, j) == want.at(i, j) by {
            assert(area@.at(i, j) == cell_of(lines(text@), i, j));
        }
        lemma_plane_eq(area@, want);
    }
    area
}

} // verus!
