use turing::{
    Band, ExecutionError, Program, Segment, State, Tape, TuringMachine, VecDequeTape, VecTape,
};

const NEXT_INTEGER: &str = "\
# This program adds 1 to a binary number.
# Input format: Binary number with empty spaces at the sides
# Initial state
+0
# End state
-3
# Program format: from,to,condition,write,action

# State 0 is for moving right until the first empty segment
0,0,0,0,r
0,0,1,1,r
0,1,_,_,l
# State 1 is for flipping bits and moving left until a 0 is turned into a 1
1,2,0,1,l
1,1,1,0,l
# Special case: The number is all 1s, in which case we arrive at a blank and turn it into a 1
1,3,_,1,n
# State 2 is for moving left until the blank
2,2,0,0,l
2,2,1,1,l
# First bit reached again, go to end state 3!
2,3,_,_,r
";

const APPEND: &str = "\
# Appends the digits 0 and 1 after a binary number.
+0
-2
0,0,1,1,r
0,0,0,0,r
0,1,_,0,r
1,2,_,1,n
";

const PALINDROME: &str = "\
# Accepts binary palindromes, stops in error state 8 otherwise.
+0
-9
!8
# Erase the leftmost digit and remember it
0,9,_,_,n
0,1,0,_,r
0,2,1,_,r
# Seek the right end
1,1,0,0,r
1,1,1,1,r
1,3,_,_,l
2,2,0,0,r
2,2,1,1,r
2,4,_,_,l
# Compare the rightmost digit
3,5,0,_,l
3,8,1,1,n
3,9,_,_,n
4,5,1,_,l
4,8,0,0,n
4,9,_,_,n
# Back to the left end
5,5,0,0,l
5,5,1,1,l
5,0,_,_,r
";

#[test]
fn test_next_integer() {
    let program = Program::from_str(NEXT_INTEGER).unwrap();
    let band = Band::from_str("_111_").unwrap();
    let mut machine = TuringMachine::from_band(band);
    machine.execute(&program).unwrap();
    assert_eq!(machine.band().cells(), Band::from_str("1000_").unwrap().cells());
}

#[test]
fn test_append() {
    let program = Program::from_str(APPEND).unwrap();
    let band = Band::from_str("_111_").unwrap();
    let mut machine = TuringMachine::from_band(band);
    machine.execute(&program).unwrap();
    assert_eq!(machine.band().cells(), Band::from_str("_11101").unwrap().cells());
}

#[test]
fn test_palindrome() {
    let program = Program::from_str(PALINDROME).unwrap();
    let band = Band::from_str("_110000011_").unwrap();
    let mut machine = TuringMachine::from_band(band);
    assert!(machine.execute(&program).is_ok());
}

#[test]
fn palindrome_rejects_other_words() {
    let program = Program::from_str(PALINDROME).unwrap();
    let mut machine = TuringMachine::from_tape(VecTape::from_str("_1101_").unwrap());
    assert_eq!(machine.execute(&program), Err(ExecutionError::ReachedError(State(8))));
}

#[test]
fn increment_returns_final_state_and_renders() {
    let program = Program::from_str(NEXT_INTEGER).unwrap();
    let mut machine = TuringMachine::from_tape(VecTape::from_str("_1011_").unwrap());
    assert_eq!(machine.execute(&program), Ok(State(3)));
    assert_eq!(machine.tape().render(), "_1100_");
}

#[test]
fn increment_on_deque_tape() {
    let program = Program::from_str(NEXT_INTEGER).unwrap();
    let mut machine = TuringMachine::from_tape(VecDequeTape::from_str("_111_").unwrap());
    assert_eq!(machine.execute(&program), Ok(State(3)));
    assert_eq!(machine.tape().render(), "1000_");
    assert_eq!(machine.tape().cells(), VecTape::from_str("1000_").unwrap().cells().clone());
}

#[test]
fn increment_grows_tape_on_the_left() {
    let program = Program::from_str(NEXT_INTEGER).unwrap();
    let mut machine = TuringMachine::from_tape(VecTape::from_str("11").unwrap());
    assert_eq!(machine.execute(&program), Ok(State(3)));
    assert_eq!(machine.tape().render(), "100_");
}

#[test]
fn undefined_transition_reports_state_and_segment() {
    let program = Program::from_str("+0\n-1\n0,1,1,1,r\n").unwrap();
    let mut machine = TuringMachine::from_tape(VecTape::from_str("___").unwrap());
    assert_eq!(
        machine.execute(&program),
        Err(ExecutionError::UndefinedBehavior(State(0), Segment::Empty))
    );
}

#[test]
fn undefined_transition_leaves_tape_alone() {
    let program = Program::from_str("+4\n-1\n4,4,1,0,r\n").unwrap();
    let mut machine = TuringMachine::from_tape(VecTape::from_str("_11_0").unwrap());
    assert_eq!(
        machine.execute(&program),
        Err(ExecutionError::UndefinedBehavior(State(4), Segment::Empty))
    );
    assert_eq!(machine.tape().render(), "_00_0");
}

#[test]
fn error_state_is_reported() {
    let program = Program::from_str("+0\n-1\n!5\n0,5,_,_,n\n").unwrap();
    let mut machine = TuringMachine::from_tape(VecTape::from_str("_").unwrap());
    assert_eq!(machine.execute(&program), Err(ExecutionError::ReachedError(State(5))));
}

#[test]
fn final_state_wins_over_error_state() {
    let program = Program::from_str("+0\n-5\n!5\n0,5,_,1,n\n").unwrap();
    let mut machine = TuringMachine::from_tape(VecTape::from_str("_").unwrap());
    assert_eq!(machine.execute(&program), Ok(State(5)));
    assert_eq!(machine.tape().render(), "1");
}

#[test]
fn later_duplicate_transition_is_used() {
    let program = Program::from_str("+0\n-1\n0,1,_,0,n\n0,1,_,1,n\n").unwrap();
    let mut machine = TuringMachine::from_tape(VecTape::from_str("_").unwrap());
    assert_eq!(machine.execute(&program), Ok(State(1)));
    assert_eq!(machine.tape().render(), "1");
}

#[test]
fn program_is_reusable_across_runs() {
    let program = Program::from_str(NEXT_INTEGER).unwrap();
    let mut first = TuringMachine::from_tape(VecTape::from_str("_10_").unwrap());
    let mut second = TuringMachine::from_tape(VecTape::from_str("_0_").unwrap());
    assert_eq!(first.execute(&program), Ok(State(3)));
    assert_eq!(second.execute(&program), Ok(State(3)));
    assert_eq!(first.tape().render(), "_11_");
    assert_eq!(second.tape().render(), "_1_");
}

#[test]
fn band_mut_lets_the_caller_edit_the_tape() {
    let mut machine = TuringMachine::from_band(Band::new(vec![Segment::Zero], 0));
    machine.band_mut().put(Segment::One);
    assert_eq!(machine.band().cells(), &vec![Segment::One]);
    machine.tape_mut().right();
    assert_eq!(*machine.tape().current(), Segment::Empty);
}
