use std::collections::VecDeque;

use turing::{InvalidProgram, Segment, Tape, VecDequeTape, VecTape};

#[test]
fn cursor_starts_on_first_digit() {
    let tape = VecTape::from_str("__10").unwrap();
    assert_eq!(*tape.current(), Segment::One);
    let mut tape = VecTape::from_str("10").unwrap();
    assert_eq!(*tape.current(), Segment::One);
    tape.right();
    assert_eq!(*tape.current(), Segment::Zero);
    let tape = VecTape::from_str(" _0").unwrap();
    assert_eq!(*tape.current(), Segment::Zero);
}

#[test]
fn all_blank_text_starts_at_zero() {
    let mut tape = VecTape::from_str("___").unwrap();
    tape.put(Segment::One);
    assert_eq!(tape.render(), "1__");
}

#[test]
fn empty_text_is_one_blank() {
    let tape = VecTape::from_str("").unwrap();
    assert_eq!(tape.cells(), &vec![Segment::Empty]);
    assert_eq!(*tape.current(), Segment::Empty);
}

#[test]
fn invalid_tape_character() {
    assert_eq!(VecTape::from_str("1a0"), Err(InvalidProgram::InvalidSegment));
    assert!(VecDequeTape::from_str("2").is_err());
}

#[test]
fn moving_right_past_the_end_appends_a_blank() {
    let mut tape = VecTape::new(vec![Segment::One], 0);
    tape.right();
    assert_eq!(tape.cells(), &vec![Segment::One, Segment::Empty]);
    assert_eq!(*tape.current(), Segment::Empty);
    tape.left();
    assert_eq!(*tape.current(), Segment::One);
    assert_eq!(tape.cells().len(), 2);
}

#[test]
fn moving_left_past_the_start_prepends_a_blank() {
    let mut tape = VecTape::new(vec![Segment::One, Segment::Zero], 0);
    tape.left();
    assert_eq!(tape.cells(), &vec![Segment::Empty, Segment::One, Segment::Zero]);
    assert_eq!(*tape.current(), Segment::Empty);
    tape.right();
    assert_eq!(*tape.current(), Segment::One);
    assert_eq!(tape.cells().len(), 3);
}

#[test]
fn many_moves_keep_the_cursor_inside() {
    let mut tape = VecTape::new(vec![Segment::Zero], 0);
    for _ in 0..5 {
        tape.left();
    }
    for _ in 0..12 {
        tape.right();
    }
    assert_eq!(tape.cells().len(), 13);
    assert_eq!(tape.render(), "_____0_______");
    assert_eq!(*tape.current(), Segment::Empty);
}

#[test]
fn deque_tape_moves_and_writes() {
    let mut tape = VecDequeTape::new(VecDeque::from(vec![Segment::Zero, Segment::One]), 1);
    tape.right();
    tape.put(Segment::Zero);
    tape.left();
    tape.left();
    tape.left();
    tape.put(Segment::One);
    assert_eq!(tape.render(), "1010");
    assert_eq!(*tape.current(), Segment::One);
}

#[test]
fn render_then_parse_keeps_segments() {
    let tape = VecTape::from_str("_10 1").unwrap();
    let text = tape.render();
    assert_eq!(text, "_10_1");
    let again = VecTape::from_str(&text).unwrap();
    assert_eq!(again.cells(), tape.cells());
    let deque = VecDequeTape::from_str(" 1").unwrap();
    let back = VecDequeTape::from_str(&deque.render()).unwrap();
    assert_eq!(back.cells(), deque.cells());
}
