use befunge::area::{Area, BLANK};

#[test]
fn new_grid_is_blank() {
    let area = Area::new(2, 3);
    assert_eq!(area.rows(), 2);
    assert_eq!(area.cols(), 3);
    for r in 0..2 {
        for c in 0..3 {
            assert_eq!(area.read(r, c), BLANK);
        }
    }
}

#[test]
fn empty_grid_has_no_cells_but_reads_blank() {
    let area = Area::new(0, 0);
    assert_eq!(area.rows(), 0);
    assert_eq!(area.cols(), 0);
    assert_eq!(area.read(0, 0), BLANK);
    assert_eq!(area.read(7, 9), BLANK);
    assert_eq!(area.to_text(), "");
}

#[test]
fn grid_without_rows_keeps_its_width() {
    let mut area = Area::new(0, 5);
    assert_eq!(area.cols(), 5);
    area.add_rows(2);
    assert_eq!(area.rows(), 2);
    assert_eq!(area.cols(), 5);
    assert_eq!(area.to_text(), "     \n     ");
}

#[test]
fn reading_outside_does_not_grow() {
    let area = Area::new(2, 2);
    assert_eq!(area.read(10, 10), BLANK);
    assert_eq!(area.rows(), 2);
    assert_eq!(area.cols(), 2);
}

#[test]
fn write_inside_changes_one_cell() {
    let mut area = Area::new(2, 3);
    area.write(1, 2, b'x');
    assert_eq!(area.rows(), 2);
    assert_eq!(area.cols(), 3);
    assert_eq!(area.read(1, 2), b'x');
    assert_eq!(area.to_text(), "   \n  x");
}

#[test]
fn write_beyond_bounds_grows_and_fills_with_blanks() {
    let mut area = Area::new(2, 2);
    area.write(0, 0, b'a');
    area.write(1, 1, b'b');
    area.write(3, 4, b'z');
    assert_eq!(area.rows(), 4);
    assert_eq!(area.cols(), 5);
    assert_eq!(area.read(0, 0), b'a');
    assert_eq!(area.read(1, 1), b'b');
    assert_eq!(area.read(3, 4), b'z');
    for r in 0..4 {
        for c in 0..5 {
            if (r, c) != (0, 0) && (r, c) != (1, 1) && (r, c) != (3, 4) {
                assert_eq!(area.read(r, c), BLANK);
            }
        }
    }
}

#[test]
fn write_beyond_one_axis_grows_only_that_axis() {
    let mut area = Area::new(3, 3);
    area.write(1, 5, b'c');
    assert_eq!((area.rows(), area.cols()), (3, 6));
    area.write(4, 0, b'r');
    assert_eq!((area.rows(), area.cols()), (5, 6));
    assert_eq!(area.read(1, 5), b'c');
    assert_eq!(area.read(4, 0), b'r');
}

#[test]
fn growth_never_shrinks() {
    let mut area = Area::new(4, 4);
    area.write(0, 0, b'k');
    assert_eq!((area.rows(), area.cols()), (4, 4));
    area.write(9, 9, b'l');
    area.write(1, 1, b'm');
    assert_eq!((area.rows(), area.cols()), (10, 10));
}

#[test]
fn pos_hands_out_the_cell() {
    let mut area = Area::new(1, 1);
    assert_eq!(*area.pos((0, 0)), BLANK);
    *area.pos((0, 0)) = b'q';
    assert_eq!(*area.pos((0, 0)), b'q');
    assert_eq!(*area.pos((2, 3)), BLANK);
    assert_eq!((area.rows(), area.cols()), (3, 4));
    *area.pos((2, 3)) = b'w';
    assert_eq!(area.read(2, 3), b'w');
    assert_eq!(area.read(0, 0), b'q');
}

#[test]
fn add_cols_pads_every_row() {
    let mut area = Area::new(2, 1);
    area.write(0, 0, b'a');
    area.write(1, 0, b'b');
    area.add_cols(2);
    assert_eq!((area.rows(), area.cols()), (2, 3));
    assert_eq!(area.to_text(), "a  \nb  ");
}

#[test]
fn add_rows_appends_blank_rows() {
    let mut area = Area::new(1, 2);
    area.write(0, 1, b'a');
    area.add_rows(2);
    assert_eq!((area.rows(), area.cols()), (3, 2));
    assert_eq!(area.to_text(), " a\n  \n  ");
}

#[test]
fn text_of_high_bytes_uses_their_code_points() {
    let mut area = Area::new(1, 2);
    area.write(0, 0, 0xe9);
    area.write(0, 1, 0x41);
    assert_eq!(area.to_text(), "\u{e9}A");
}
