use befunge::dir::Dir;
use befunge::interpreter::{Action, Interpreter, Outcome};

fn lines(input: &[&str]) -> Vec<String> {
    input.iter().map(|line| line.to_string()).collect()
}

fn run(program: &str, input: &[&str]) -> (Interpreter, Outcome) {
    let mut interpreter = Interpreter::new(program);
    let outcome = interpreter.run(&lines(input), 100_000);
    (interpreter, outcome)
}

fn stack_after(program: &str) -> Vec<u8> {
    let (interpreter, outcome) = run(program, &[]);
    assert!(outcome.halted);
    interpreter.stack().clone()
}

fn output_of(program: &str) -> String {
    let (_, outcome) = run(program, &[]);
    assert!(outcome.halted);
    outcome.output
}

#[test]
fn starts_in_the_corner_travelling_right() {
    let interpreter = Interpreter::new("12\n34\n");
    assert_eq!(interpreter.position(), (0, 0));
    assert_eq!(interpreter.direction(), Dir::Rht);
    assert!(interpreter.stack().is_empty());
    assert!(!interpreter.in_string_mode());
    assert!(!interpreter.skipping());
    assert_eq!(interpreter.area().to_text(), "12\n34");
}

#[test]
fn default_interpreter_has_an_empty_grid() {
    let interpreter = Interpreter::default();
    assert_eq!(interpreter.area().rows(), 0);
    assert_eq!(interpreter.area().cols(), 0);
    assert_eq!(interpreter.position(), (0, 0));
    assert_eq!(interpreter.direction(), Dir::Rht);
    assert!(interpreter.stack().is_empty());
}

#[test]
fn digits_then_stop_leave_the_digits() {
    assert_eq!(stack_after("@"), Vec::<u8>::new());
    assert_eq!(stack_after("7@"), vec![7]);
    assert_eq!(stack_after("0123456789@"), vec![0, 1, 2, 3, 4, 5, 6, 7, 8, 9]);
    assert_eq!(stack_after("9081726354@\n"), vec![9, 0, 8, 1, 7, 2, 6, 3, 5, 4]);
}

#[test]
fn digit_program_ends_after_one_round_more_than_its_digits() {
    let mut interpreter = Interpreter::new("314@");
    let outcome = interpreter.run(&lines(&[]), 3);
    assert!(!outcome.halted);
    assert_eq!(interpreter.stack(), &vec![3, 1, 4]);
    let outcome = interpreter.run(&lines(&[]), 1);
    assert!(outcome.halted);
    assert_eq!(interpreter.stack(), &vec![3, 1, 4]);
    assert_eq!(outcome.output, "");
    assert_eq!(outcome.lines_read, 0);
}

#[test]
fn arithmetic() {
    assert_eq!(stack_after("34+@"), vec![7]);
    assert_eq!(stack_after("93-@"), vec![6]);
    assert_eq!(stack_after("67*@"), vec![42]);
    assert_eq!(stack_after("92/@"), vec![4]);
    assert_eq!(stack_after("94%@"), vec![1]);
    assert_eq!(stack_after("52`@"), vec![1]);
    assert_eq!(stack_after("25`@"), vec![0]);
    assert_eq!(stack_after("55`@"), vec![0]);
}

#[test]
fn arithmetic_wraps_modulo_256() {
    assert_eq!(stack_after("\"\u{c8}d\"+@"), vec![44]);
    assert_eq!(stack_after("35-@"), vec![254]);
    assert_eq!(stack_after("\"d\"4*@"), vec![144]);
    assert_eq!(stack_after("88*88**@"), vec![0]);
}

#[test]
fn adding_and_taking_away_again_restores_the_value() {
    assert_eq!(stack_after("\"\u{c8}d\"+\"d\"-@"), vec![200]);
    assert_eq!(stack_after("39+9-@"), vec![3]);
    assert_eq!(stack_after("\"\u{ff}\u{ff}\"+\"\u{ff}\"-@"), vec![255]);
    assert_eq!(output_of("\"\u{c8}d\"+\"d\"-.@"), "200");
}

#[test]
fn division_by_zero_gives_zero() {
    assert_eq!(stack_after("50/@"), vec![0]);
    assert_eq!(stack_after("50%@"), vec![0]);
    assert_eq!(stack_after("00/@"), vec![0]);
    assert_eq!(output_of("90/.@"), "0");
}

#[test]
fn not_turns_zero_into_one_and_the_rest_into_zero() {
    assert_eq!(stack_after("0!@"), vec![1]);
    assert_eq!(stack_after("1!@"), vec![0]);
    assert_eq!(stack_after("9!@"), vec![0]);
    assert_eq!(stack_after("!@"), Vec::<u8>::new());
}

#[test]
fn stack_operators() {
    assert_eq!(stack_after("4:@"), vec![4, 4]);
    assert_eq!(stack_after(":@"), Vec::<u8>::new());
    assert_eq!(stack_after("12\\@"), vec![2, 1]);
    assert_eq!(stack_after("123\\@"), vec![1, 3, 2]);
    assert_eq!(stack_after("12$@"), vec![1]);
    assert_eq!(stack_after("$@"), Vec::<u8>::new());
}

#[test]
fn plus_on_an_empty_stack_leaves_it_empty() {
    assert_eq!(stack_after("+@"), Vec::<u8>::new());
}

#[test]
fn swap_of_a_single_value_leaves_it() {
    assert_eq!(stack_after("7\\@"), vec![7]);
}

#[test]
fn binary_operator_puts_a_lone_operand_back() {
    for op in ["+", "-", "*", "/", "%", "`"] {
        assert_eq!(stack_after(&format!("8{}@", op)), vec![8]);
        assert_eq!(stack_after(&format!("{}@", op)), Vec::<u8>::new());
    }
}

#[test]
fn string_mode_pushes_what_is_written() {
    let mut interpreter = Interpreter::new("\"abc\"");
    let outcome = interpreter.run(&lines(&[]), 5);
    assert!(!outcome.halted);
    assert_eq!(interpreter.stack(), &vec![b'a', b'b', b'c']);
    assert!(!interpreter.in_string_mode());
}

#[test]
fn string_mode_takes_operators_as_text() {
    assert_eq!(stack_after("\"1+@ \"@"), vec![b'1', b'+', b'@', b' ']);
    assert_eq!(stack_after("\"\"@"), Vec::<u8>::new());
}

#[test]
fn string_mode_is_on_between_the_quotes() {
    let mut interpreter = Interpreter::new("\"a\"@");
    assert_eq!(interpreter.step(None), Action::Continue);
    assert!(interpreter.in_string_mode());
    assert_eq!(interpreter.step(None), Action::Continue);
    assert!(interpreter.in_string_mode());
    assert_eq!(interpreter.step(None), Action::Continue);
    assert!(!interpreter.in_string_mode());
    assert_eq!(interpreter.stack(), &vec![b'a']);
    assert_eq!(interpreter.step(None), Action::Halt);
}

#[test]
fn string_mode_pushes_the_padding_it_crosses() {
    let mut interpreter = Interpreter::new("\"ab\n      \n");
    let outcome = interpreter.run(&lines(&[]), 7);
    assert!(!outcome.halted);
    assert!(!interpreter.in_string_mode());
    assert_eq!(interpreter.stack(), &vec![b'a', b'b', b' ', b' ', b' ']);
    assert_eq!(interpreter.position(), (0, 1));
}

#[test]
fn nine_plus_one_is_written_as_ten() {
    let (interpreter, outcome) = run("91+.@", &[]);
    assert!(outcome.halted);
    assert_eq!(outcome.output, "10");
    assert_eq!(outcome.lines_read, 0);
    assert!(interpreter.stack().is_empty());
}

#[test]
fn nine_plus_one_step_by_step() {
    let mut interpreter = Interpreter::new("91+.@");
    assert_eq!(interpreter.step(None), Action::Continue);
    assert_eq!(interpreter.stack(), &vec![9]);
    assert_eq!(interpreter.step(None), Action::Continue);
    assert_eq!(interpreter.stack(), &vec![9, 1]);
    assert_eq!(interpreter.step(None), Action::Continue);
    assert_eq!(interpreter.stack(), &vec![10]);
    assert_eq!(interpreter.step(None), Action::Output("10".to_string()));
    assert!(interpreter.stack().is_empty());
    assert_eq!(interpreter.position(), (0, 4));
    assert_eq!(interpreter.step(None), Action::Halt);
    assert_eq!(interpreter.position(), (0, 4));
    assert_eq!(interpreter.step(None), Action::Halt);
}

#[test]
fn number_then_character_are_read_and_pushed() {
    let (interpreter, outcome) = run("&~@", &["5", "Z"]);
    assert!(outcome.halted);
    assert_eq!(interpreter.stack(), &vec![5, 90]);
    assert_eq!(outcome.lines_read, 2);
    assert_eq!(outcome.output, "");
}

#[test]
fn lines_may_end_in_a_line_feed() {
    let (interpreter, outcome) = run("&~@", &["5\n", "Z\n"]);
    assert!(outcome.halted);
    assert_eq!(interpreter.stack(), &vec![5, 90]);
}

#[test]
fn input_step_asks_first_and_takes_the_line_then() {
    let mut interpreter = Interpreter::new("&~@");
    assert_eq!(interpreter.step(None), Action::Input);
    assert_eq!(interpreter.position(), (0, 0));
    assert!(interpreter.stack().is_empty());
    assert_eq!(interpreter.step(None), Action::Input);
    assert_eq!(interpreter.step(Some(" 5 \n")), Action::Continue);
    assert_eq!(interpreter.stack(), &vec![5]);
    assert_eq!(interpreter.position(), (0, 1));
    assert_eq!(interpreter.step(None), Action::Input);
    assert_eq!(interpreter.step(Some("Z\n")), Action::Continue);
    assert_eq!(interpreter.stack(), &vec![5, 90]);
    assert_eq!(interpreter.step(None), Action::Halt);
}

#[test]
fn a_line_nobody_asked_for_is_ignored() {
    let mut interpreter = Interpreter::new("1@");
    assert_eq!(interpreter.step(Some("77")), Action::Continue);
    assert_eq!(interpreter.stack(), &vec![1]);
    assert_eq!(interpreter.step(Some("77")), Action::Halt);
    assert_eq!(interpreter.stack(), &vec![1]);
}

#[test]
fn bad_number_and_end_of_input_give_zero() {
    let (interpreter, outcome) = run("&&&~@", &["x", "256"]);
    assert!(outcome.halted);
    assert_eq!(interpreter.stack(), &vec![0, 0, 0, 0]);
    assert_eq!(outcome.lines_read, 4);
}

#[test]
fn output_of_numbers_and_characters() {
    assert_eq!(output_of("\"!olleH\",,,,,,@"), "Hello!");
    assert_eq!(output_of("0.9.\"d\".\"\u{ff}\".@"), "09100255");
    assert_eq!(output_of("\"\u{e9}\",@"), "\u{e9}");
    assert_eq!(output_of(".,@"), "");
}

#[test]
fn output_instruction_hands_over_the_text() {
    let mut interpreter = Interpreter::new("\"A\",@");
    assert_eq!(interpreter.run(&lines(&[]), 3).output, "");
    assert_eq!(interpreter.step(None), Action::Output("A".to_string()));
    assert!(interpreter.stack().is_empty());
}

#[test]
fn direction_operators() {
    let mut interpreter = Interpreter::new("v \n>^\n");
    assert_eq!(interpreter.step(None), Action::Continue);
    assert_eq!((interpreter.direction(), interpreter.position()), (Dir::Dwn, (1, 0)));
    assert_eq!(interpreter.step(None), Action::Continue);
    assert_eq!((interpreter.direction(), interpreter.position()), (Dir::Rht, (1, 1)));
    assert_eq!(interpreter.step(None), Action::Continue);
    assert_eq!((interpreter.direction(), interpreter.position()), (Dir::Upp, (0, 1)));
    assert_eq!(interpreter.step(None), Action::Continue);
    assert_eq!((interpreter.direction(), interpreter.position()), (Dir::Upp, (1, 1)));
}

#[test]
fn left_from_the_corner_wraps() {
    let mut interpreter = Interpreter::new("<12@");
    assert_eq!(interpreter.step(None), Action::Continue);
    assert_eq!(interpreter.position(), (0, 3));
    assert_eq!(interpreter.step(None), Action::Halt);
}

#[test]
fn travelling_right_comes_back_after_as_many_steps_as_columns() {
    let mut interpreter = Interpreter::new("    \n    \n    \n");
    for step in 1..=4 {
        assert_eq!(interpreter.step(None), Action::Continue);
        assert_eq!(interpreter.position(), (0, step % 4));
    }
}

#[test]
fn travelling_down_comes_back_after_as_many_steps_as_rows() {
    let mut interpreter = Interpreter::new("v   \n    \n    \n");
    assert_eq!(interpreter.step(None), Action::Continue);
    assert_eq!(interpreter.position(), (1, 0));
    assert_eq!(interpreter.step(None), Action::Continue);
    assert_eq!(interpreter.position(), (2, 0));
    assert_eq!(interpreter.step(None), Action::Continue);
    assert_eq!(interpreter.position(), (0, 0));
}

#[test]
fn horizontal_conditional() {
    assert_eq!(output_of("0_1.@"), "1");
    assert_eq!(stack_after("0_@"), Vec::<u8>::new());
    assert_eq!(stack_after("1_@"), vec![1]);
    let mut interpreter = Interpreter::new("_");
    assert_eq!(interpreter.step(None), Action::Continue);
    assert_eq!(interpreter.direction(), Dir::Rht);
    let mut interpreter = Interpreter::new("1_");
    interpreter.run(&lines(&[]), 2);
    assert_eq!(interpreter.direction(), Dir::Lft);
    assert!(interpreter.stack().is_empty());
}

#[test]
fn vertical_conditional() {
    let mut interpreter = Interpreter::new("0|\n  \n");
    interpreter.run(&lines(&[]), 2);
    assert_eq!(interpreter.direction(), Dir::Dwn);
    assert_eq!(interpreter.position(), (1, 1));
    let mut interpreter = Interpreter::new("3|\n  \n  \n");
    interpreter.run(&lines(&[]), 2);
    assert_eq!(interpreter.direction(), Dir::Upp);
    assert_eq!(interpreter.position(), (2, 1));
    let mut interpreter = Interpreter::new("|\n \n");
    interpreter.run(&lines(&[]), 1);
    assert_eq!(interpreter.direction(), Dir::Dwn);
}

#[test]
fn random_turn_takes_the_direction_given() {
    for dir in [Dir::Rht, Dir::Lft, Dir::Upp, Dir::Dwn] {
        let mut interpreter = Interpreter::new("?  \n   \n   \n");
        assert!(interpreter.at_random_turn());
        assert_eq!(interpreter.step_with(None, dir), Action::Continue);
        assert_eq!(interpreter.direction(), dir);
        assert!(!interpreter.at_random_turn());
    }
}

#[test]
fn other_steps_take_no_notice_of_the_direction_given() {
    let mut interpreter = Interpreter::new("1>@");
    assert_eq!(interpreter.step_with(None, Dir::Upp), Action::Continue);
    assert_eq!(interpreter.direction(), Dir::Rht);
    assert_eq!(interpreter.step_with(None, Dir::Lft), Action::Continue);
    assert_eq!(interpreter.direction(), Dir::Rht);
    assert_eq!(interpreter.step_with(None, Dir::Dwn), Action::Halt);
}

#[test]
fn random_turn_in_a_run_ends_wherever_it_goes() {
    for _ in 0..50 {
        let (interpreter, outcome) = run("?@\n@@\n", &[]);
        assert!(outcome.halted);
        assert!(interpreter.stack().is_empty());
    }
}

#[test]
fn bridge_passes_over_the_next_cell() {
    assert_eq!(stack_after("1#23@"), vec![1, 3]);
    assert_eq!(stack_after("#@5@"), vec![5]);
    let mut interpreter = Interpreter::new("#12@");
    assert_eq!(interpreter.step(None), Action::Continue);
    assert!(interpreter.skipping());
    assert_eq!(interpreter.position(), (0, 1));
    assert_eq!(interpreter.step(None), Action::Continue);
    assert!(!interpreter.skipping());
    assert_eq!(interpreter.position(), (0, 2));
    assert!(interpreter.stack().is_empty());
}

#[test]
fn bridge_passes_over_a_quote() {
    assert_eq!(stack_after("#\"12@"), vec![1, 2]);
}

#[test]
fn bridge_in_string_mode_is_text() {
    assert_eq!(stack_after("\"#\"1@"), vec![b'#', 1]);
}

#[test]
fn put_writes_into_the_grid() {
    let (interpreter, outcome) = run("7 01p@", &[]);
    assert!(outcome.halted);
    assert!(interpreter.stack().is_empty());
    assert_eq!(interpreter.area().read(0, 1), 7);
}

#[test]
fn put_changes_the_program() {
    assert_eq!(output_of("\"@\"09p 9.5.3.@"), "9");
}

#[test]
fn put_beyond_the_grid_grows_it() {
    let (interpreter, outcome) = run("\"x\"37p@", &[]);
    assert!(outcome.halted);
    let area = interpreter.area();
    assert_eq!((area.rows(), area.cols()), (4, 8));
    assert_eq!(area.read(3, 7), b'x');
    assert_eq!(area.to_text(), "\"x\"37p@ \n        \n        \n       x");
}

#[test]
fn cursor_wraps_at_the_extents_of_the_moment() {
    let mut interpreter = Interpreter::new("108p");
    interpreter.run(&lines(&[]), 4);
    assert_eq!(interpreter.area().cols(), 9);
    assert_eq!(interpreter.position(), (0, 4));
    interpreter.run(&lines(&[]), 5);
    assert_eq!(interpreter.position(), (0, 0));
}

#[test]
fn put_with_too_few_values_puts_them_back() {
    assert_eq!(stack_after("p@"), Vec::<u8>::new());
    assert_eq!(stack_after("4p@"), vec![4]);
    assert_eq!(stack_after("45p@"), vec![4, 5]);
    let (interpreter, _) = run("45p@", &[]);
    assert_eq!(interpreter.area().to_text(), "45p@");
}

#[test]
fn get_reads_from_the_grid() {
    assert_eq!(stack_after("00g@"), vec![b'0']);
    assert_eq!(stack_after("03g@"), vec![b'@']);
    assert_eq!(stack_after("10g@\nab\n"), vec![b'a']);
    assert_eq!(stack_after("11g@\nab\n"), vec![b'b']);
}

#[test]
fn get_outside_the_grid_reads_a_blank_and_grows_nothing() {
    let (interpreter, outcome) = run("99g@", &[]);
    assert!(outcome.halted);
    assert_eq!(interpreter.stack(), &vec![b' ']);
    assert_eq!((interpreter.area().rows(), interpreter.area().cols()), (1, 4));
}

#[test]
fn get_with_too_few_values_puts_them_back() {
    assert_eq!(stack_after("g@"), Vec::<u8>::new());
    assert_eq!(stack_after("6g@"), vec![6]);
}

#[test]
fn unknown_bytes_do_nothing() {
    assert_eq!(stack_after("a b\tc1Xz@"), vec![1]);
}

#[test]
fn run_stops_at_its_limit() {
    let mut interpreter = Interpreter::new("1 \n");
    let outcome = interpreter.run(&lines(&[]), 10);
    assert!(!outcome.halted);
    assert_eq!(interpreter.stack(), &vec![1; 5]);
    assert_eq!(interpreter.position(), (0, 0));
    let outcome = interpreter.run(&lines(&[]), 0);
    assert!(!outcome.halted);
    assert_eq!(interpreter.stack(), &vec![1; 5]);
}

#[test]
fn an_empty_program_idles() {
    let mut interpreter = Interpreter::new("");
    for _ in 0..5 {
        assert_eq!(interpreter.step(None), Action::Continue);
        assert_eq!(interpreter.position(), (0, 0));
    }
    assert_eq!((interpreter.area().rows(), interpreter.area().cols()), (0, 0));
    let mut interpreter = Interpreter::new("\n\n");
    for _ in 0..5 {
        assert_eq!(interpreter.step(None), Action::Continue);
        assert_eq!(interpreter.position(), (0, 0));
    }
}

#[test]
fn a_program_on_several_rows() {
    let program = "v   >.@\n\
                   >34*^  \n";
    assert_eq!(output_of(program), "12");
}

#[test]
fn countdown_loop() {
    let program = "5>:.1-:v\n\
                   \x20^     _@\n";
    assert_eq!(output_of(program), "54321");
}
