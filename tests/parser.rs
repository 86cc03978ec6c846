use turing::{InvalidProgram, Move, Program, Segment, State, Transition};

fn parse_err(text: &str) -> InvalidProgram {
    match Program::from_str(text) {
        Ok(_) => panic!("expected an error"),
        Err(e) => e,
    }
}

#[test]
fn missing_initial_state() {
    assert_eq!(
        parse_err("# only a comment\n/ another\n\n0,1,_,_,r\n-1\n"),
        InvalidProgram::MissingInitialState
    );
}

#[test]
fn missing_fields_come_before_content() {
    assert_eq!(parse_err("+0\n1,2,3\n"), InvalidProgram::MissingWrite);
    assert_eq!(parse_err("+0\nx,y,z\n"), InvalidProgram::MissingWrite);
    assert_eq!(parse_err("+0\n1\n"), InvalidProgram::MissingTo);
    assert_eq!(parse_err("+0\n1,2\n"), InvalidProgram::MissingCondition);
    assert_eq!(parse_err("+0\n1,2,_,_\n"), InvalidProgram::MissingAction);
}

#[test]
fn invalid_field_contents() {
    assert_eq!(parse_err("+0\na,1,_,_,r\n"), InvalidProgram::InvalidState);
    assert_eq!(parse_err("+0\n0,-1,_,_,r\n"), InvalidProgram::InvalidState);
    assert_eq!(parse_err("+0\n0,1,2,_,r\n"), InvalidProgram::InvalidSegment);
    assert_eq!(parse_err("+0\n0,1,_,11,r\n"), InvalidProgram::InvalidSegment);
    assert_eq!(parse_err("+0\n0,1,_,_,x\n"), InvalidProgram::InvalidAction);
    assert_eq!(parse_err("+0\n0,1,_,_,rr\n"), InvalidProgram::InvalidAction);
}

#[test]
fn fields_are_checked_left_to_right() {
    assert_eq!(parse_err("+0\na,1,9,_,x\n"), InvalidProgram::InvalidState);
    assert_eq!(parse_err("+0\n0,1,9,_,x\n"), InvalidProgram::InvalidSegment);
}

#[test]
fn invalid_state_declarations() {
    assert_eq!(parse_err("+x\n"), InvalidProgram::InvalidState);
    assert_eq!(parse_err("+\n"), InvalidProgram::InvalidState);
    assert_eq!(parse_err("+0\n- 1\n"), InvalidProgram::InvalidState);
    assert_eq!(parse_err("+0\n!1a\n"), InvalidProgram::InvalidState);
    assert_eq!(parse_err("+99999999999999999999999\n"), InvalidProgram::InvalidState);
}

#[test]
fn empty_text_has_no_initial_state() {
    assert_eq!(parse_err(""), InvalidProgram::MissingInitialState);
}

#[test]
fn first_error_stops_parsing() {
    assert_eq!(parse_err("+0\n0,1,_,_,x\n+y\n"), InvalidProgram::InvalidAction);
}

#[test]
fn later_initial_state_wins() {
    let program = Program::from_str("+0\n+7\n-7\n").unwrap();
    assert_eq!(program.initial_state(), State(7));
}

#[test]
fn state_lines_fill_their_sets() {
    let program = Program::from_str("+1\n-2\n-3\n!4\n").unwrap();
    assert_eq!(program.initial_state(), State(1));
    assert!(program.is_final(State(2)));
    assert!(program.is_final(State(3)));
    assert!(!program.is_final(State(4)));
    assert!(program.is_error(State(4)));
    assert!(!program.is_error(State(1)));
}

#[test]
fn state_with_plus_sign() {
    let program = Program::from_str("++12\n").unwrap();
    assert_eq!(program.initial_state(), State(12));
}

#[test]
fn transition_fields_are_read() {
    let program = Program::from_str("+0\n3,4,1,0,L\n3,5, , ,\n7,7,_,_,r,ignored\n").unwrap();
    let t = program.transition(State(3), Segment::One).unwrap();
    assert_eq!(
        *t,
        Transition {
            from: State(3),
            to: State(4),
            condition: Segment::One,
            write: Segment::Zero,
            action: Move::Left,
        }
    );
    let blank = program.transition(State(3), Segment::Empty).unwrap();
    assert_eq!(blank.to, State(5));
    assert_eq!(blank.write, Segment::Empty);
    assert_eq!(blank.action, Move::Nothing);
    assert!(program.transition(State(3), Segment::Zero).is_none());
    assert_eq!(program.transition(State(7), Segment::Empty).unwrap().action, Move::Right);
}

#[test]
fn movement_tokens() {
    let program = Program::from_str("+0\n0,0,0,0,r\n0,0,1,1,R\n1,0,0,0,l\n1,0,1,1,N\n1,0,_,_,_\n2,0,0,0,\n").unwrap();
    assert_eq!(program.transition(State(0), Segment::Zero).unwrap().action, Move::Right);
    assert_eq!(program.transition(State(0), Segment::One).unwrap().action, Move::Right);
    assert_eq!(program.transition(State(1), Segment::Zero).unwrap().action, Move::Left);
    assert_eq!(program.transition(State(1), Segment::One).unwrap().action, Move::Nothing);
    assert_eq!(program.transition(State(1), Segment::Empty).unwrap().action, Move::Nothing);
    assert_eq!(program.transition(State(2), Segment::Zero).unwrap().action, Move::Nothing);
}

#[test]
fn later_duplicate_transition_replaces_earlier() {
    let program = Program::from_str("+0\n0,1,_,0,l\n0,2,_,1,r\n").unwrap();
    let t = program.transition(State(0), Segment::Empty).unwrap();
    assert_eq!(t.to, State(2));
    assert_eq!(t.write, Segment::One);
    assert_eq!(t.action, Move::Right);
}

#[test]
fn crlf_line_endings() {
    let program = Program::from_str("# comment\r\n+3\r\n-4\r\n3,4,_,1,r\r\n").unwrap();
    assert_eq!(program.initial_state(), State(3));
    assert!(program.is_final(State(4)));
    assert_eq!(program.transition(State(3), Segment::Empty).unwrap().action, Move::Right);
}

#[test]
fn carriage_return_on_last_line_is_kept() {
    assert_eq!(parse_err("+3\r"), InvalidProgram::InvalidState);
}

#[test]
fn segment_tokens() {
    assert_eq!(Segment::from_str("1"), Ok(Segment::One));
    assert_eq!(Segment::from_str("0"), Ok(Segment::Zero));
    assert_eq!(Segment::from_str("_"), Ok(Segment::Empty));
    assert_eq!(Segment::from_str(" "), Ok(Segment::Empty));
    assert_eq!(Segment::from_str("2"), Err(InvalidProgram::InvalidSegment));
    assert_eq!(Segment::from_str(""), Err(InvalidProgram::InvalidSegment));
    assert_eq!(Segment::from_str("10"), Err(InvalidProgram::InvalidSegment));
    assert_eq!(Segment::One.to_char(), '1');
    assert_eq!(Segment::Zero.to_char(), '0');
    assert_eq!(Segment::Empty.to_char(), '_');
}

#[test]
fn token_parsers() {
    assert_eq!(State::from_str("42"), Ok(State(42)));
    assert_eq!(State::from_str("+42"), Ok(State(42)));
    assert_eq!(State::from_str("-1"), Err(InvalidProgram::InvalidState));
    assert_eq!(State::from_str(""), Err(InvalidProgram::InvalidState));
    assert_eq!(State::from_str("18446744073709551615"), Ok(State(usize::MAX)));
    assert_eq!(State::from_str("18446744073709551616"), Err(InvalidProgram::InvalidState));
    assert_eq!(Move::from_str("R"), Ok(Move::Right));
    assert_eq!(Move::from_str("l"), Ok(Move::Left));
    assert_eq!(Move::from_str(""), Ok(Move::Nothing));
    assert_eq!(Move::from_str(" "), Ok(Move::Nothing));
    assert_eq!(Move::from_str("x"), Err(InvalidProgram::InvalidAction));
}

#[test]
fn transition_line_parser() {
    assert_eq!(Transition::from_str("1,2,3"), Err(InvalidProgram::MissingWrite));
    assert_eq!(Transition::from_str(""), Err(InvalidProgram::MissingTo));
    assert_eq!(
        Transition::from_str("1,2,0,1,r"),
        Ok(Transition {
            from: State(1),
            to: State(2),
            condition: Segment::Zero,
            write: Segment::One,
            action: Move::Right,
        })
    );
}
