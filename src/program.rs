use std::collections::{HashMap, HashSet};

use vstd::prelude::*;

use crate::error::InvalidProgram;
use crate::tape::{parse_segment, spec_parse_segment, Segment};
use crate::text::chars_of;

verus! {

broadcast use vstd::std_specs::hash::group_hash_axioms;

/// A state in a [`Program`].
#[derive(Debug, Clone, Copy, PartialEq, Eq, Hash, Structural)]
pub struct State(pub usize);

/// A movement action in a program.
#[derive(Debug, Clone, Copy, PartialEq, Eq, Structural)]
pub enum Move {
    Left,
    Right,
    Nothing,
}

/// A transition in a [`Program`].
///
/// If the transition matches the [`crate::TuringMachine`]'s current
/// state, it will write to the tape and move the cursor.
#[derive(Debug, Clone, Copy, PartialEq, Eq, Structural)]
pub struct Transition {
    pub from: State,
    pub to: State,
    pub condition: Segment,
    pub write: Segment,
    pub action: Move,
}

// ---------------------------------------------------------------------------
// The text format, stated over character sequences.
// ---------------------------------------------------------------------------

pub open spec fn is_digit(c: char) -> bool {
    '0' <= c <= '9'
}

pub open spec fn digit_value(c: char) -> nat {
    (c as u32 - '0' as u32) as nat
}

/// The value of a string of decimal digits.
pub open spec fn decimal_value(s: Seq<char>) -> nat
    decreases s.len(),
{
    if s.len() == 0 {
        0
    } else {
        decimal_value(s.drop_last()) * 10 + digit_value(s.last())
    }
}

/// Whether every character is a decimal digit.
pub open spec fn all_digits(s: Seq<char>) -> bool {
    forall|i: int| 0 <= i < s.len() ==> is_digit(#[trigger] s[i])
}

/// A state token without its optional leading `+`.
pub open spec fn state_digits(tok: Seq<char>) -> Seq<char> {
    if tok.len() > 0 && tok[0] == '+' {
        tok.drop_first()
    } else {
        tok
    }
}

/// A state token: an optional `+`, then one or more decimal digits whose
/// value fits in `usize`.
pub open spec fn spec_parse_state(tok: Seq<char>) -> Result<State, InvalidProgram> {
    let d = state_digits(tok);
    if d.len() > 0 && all_digits(d) && decimal_value(d) <= usize::MAX {
        Ok(State(decimal_value(d) as usize))
    } else {
        Err(InvalidProgram::InvalidState)
    }
}

/// A movement token: `r`/`R` right, `l`/`L` left; `n`, `N`, `_`, a space or
/// nothing stays.
pub open spec fn spec_parse_move(tok: Seq<char>) -> Result<Move, InvalidProgram> {
    if tok == seq!['r'] || tok == seq!['R'] {
        Ok(Move::Right)
    } else if tok == seq!['l'] || tok == seq!['L'] {
        Ok(Move::Left)
    } else if tok.len() == 0 || tok == seq!['n'] || tok == seq!['N'] || tok == seq!['_'] || tok
        == seq![' '] {
        Ok(Move::Nothing)
    } else {
        Err(InvalidProgram::InvalidAction)
    }
}

/// The index of the first `sep` at or after `i`, or the length if none.
pub open spec fn next_sep(s: Seq<char>, i: nat, sep: char) -> nat
    decreases s.len() - i,
{
    if i >= s.len() {
        s.len()
    } else if s[i as int] == sep {
        i
    } else {
        next_sep(s, i + 1, sep)
    }
}

pub proof fn lemma_next_sep_bounds(s: Seq<char>, i: nat, sep: char)
    requires
        i <= s.len(),
    ensures
        i <= next_sep(s, i, sep) <= s.len(),
        next_sep(s, i, sep) < s.len() ==> s[next_sep(s, i, sep) as int] == sep,
    decreases s.len() - i,
{
    if i < s.len() && s[i as int] != sep {
        lemma_next_sep_bounds(s, i + 1, sep);
    }
}

/// The comma separated fields of `s` from index `i` on; there is always at
/// least one, possibly empty.
pub open spec fn fields_from(s: Seq<char>, i: nat) -> Seq<Seq<char>>
    decreases s.len() - i,
{
    if i > s.len() {
        seq![]
    } else {
        let e = next_sep(s, i, ',');
        if e >= s.len() {
            seq![s.subrange(i as int, s.len() as int)]
        } else {
            proof {
                lemma_next_sep_bounds(s, i, ',');
            }
            seq![s.subrange(i as int, e as int)] + fields_from(s, e + 1)
        }
    }
}

/// A transition line: five comma separated fields, from, to, condition,
/// write and action. Missing fields are reported before the content of any
/// field is looked at; fields after the fifth are ignored.
pub open spec fn spec_parse_transition(line: Seq<char>) -> Result<Transition, InvalidProgram> {
    let f = fields_from(line, 0);
    if f.len() < 1 {
        Err(InvalidProgram::MissingFrom)
    } else if f.len() < 2 {
        Err(InvalidProgram::MissingTo)
    } else if f.len() < 3 {
        Err(InvalidProgram::MissingCondition)
    } else if f.len() < 4 {
        Err(InvalidProgram::MissingWrite)
    } else if f.len() < 5 {
        Err(InvalidProgram::MissingAction)
    } else {
        match spec_parse_state(f[0]) {
            Err(e) => Err(e),
            Ok(from) => match spec_parse_state(f[1]) {
                Err(e) => Err(e),
                Ok(to) => match spec_parse_segment(f[2]) {
                    Err(e) => Err(e),
                    Ok(condition) => match spec_parse_segment(f[3]) {
                        Err(e) => Err(e),
                        Ok(write) => match spec_parse_move(f[4]) {
                            Err(e) => Err(e),
                            Ok(action) => Ok(Transition { from, to, condition, write, action }),
                        },
                    },
                },
            },
        }
    }
}

/// The lines of `s` from index `i` on: split at `\n`, a `\r` before the `\n`
/// dropped, no line after a final `\n`.
pub open spec fn lines_from(s: Seq<char>, i: nat) -> Seq<Seq<char>>
    decreases s.len() - i,
{
    if i >= s.len() {
        seq![]
    } else {
        let e = next_sep(s, i, '\n');
        let raw = s.subrange(i as int, e as int);
        if e >= s.len() {
            seq![raw]
        } else {
            proof {
                lemma_next_sep_bounds(s, i, '\n');
            }
            let line = if raw.len() > 0 && raw.last() == '\r' {
                raw.drop_last()
            } else {
                raw
            };
            seq![line] + lines_from(s, e + 1)
        }
    }
}

/// What a prefix of a program's lines has declared so far.
pub struct ProgramDraft {
    pub initial_state: Option<State>,
    pub final_states: Set<usize>,
    pub error_states: Set<usize>,
    pub transitions: Map<(usize, Segment), Transition>,
}

/// A parsed program: its states and its transition table, keyed by the
/// from state and the condition.
pub struct ProgramModel {
    pub initial_state: State,
    pub final_states: Set<usize>,
    pub error_states: Set<usize>,
    pub transitions: Map<(usize, Segment), Transition>,
}

pub open spec fn empty_draft() -> ProgramDraft {
    ProgramDraft {
        initial_state: None,
        final_states: Set::empty(),
        error_states: Set::empty(),
        transitions: Map::empty(),
    }
}

/// Whether a line is skipped: empty, or starting with `#` or `/`.
pub open spec fn is_comment(line: Seq<char>) -> bool {
    line.len() == 0 || line[0] == '#' || line[0] == '/'
}

/// The effect of one line on what was declared before it.
pub open spec fn apply_line(d: ProgramDraft, line: Seq<char>) -> Result<
    ProgramDraft,
    InvalidProgram,
> {
    if is_comment(line) {
        Ok(d)
    } else if line[0] == '+' {
        match spec_parse_state(line.drop_first()) {
            Ok(s) => Ok(ProgramDraft { initial_state: Some(s), ..d }),
            Err(e) => Err(e),
        }
    } else if line[0] == '-' {
        match spec_parse_state(line.drop_first()) {
            Ok(s) => Ok(ProgramDraft { final_states: d.final_states.insert(s.0), ..d }),
            Err(e) => Err(e),
        }
    } else if line[0] == '!' {
        match spec_parse_state(line.drop_first()) {
            Ok(s) => Ok(ProgramDraft { error_states: d.error_states.insert(s.0), ..d }),
            Err(e) => Err(e),
        }
    } else {
        match spec_parse_transition(line) {
            Ok(t) => Ok(
                ProgramDraft { transitions: d.transitions.insert((t.from.0, t.condition), t), ..d },
            ),
            Err(e) => Err(e),
        }
    }
}

/// The lines taken in order; the first error stops the parse.
pub open spec fn parse_lines(lines: Seq<Seq<char>>) -> Result<ProgramDraft, InvalidProgram>
    decreases lines.len(),
{
    if lines.len() == 0 {
        Ok(empty_draft())
    } else {
        match parse_lines(lines.drop_last()) {
            Ok(d) => apply_line(d, lines.last()),
            Err(e) => Err(e),
        }
    }
}

/// The program that a text describes, or the first error in it.
pub open spec fn spec_parse_program(text: Seq<char>) -> Result<ProgramModel, InvalidProgram> {
    match parse_lines(lines_from(text, 0)) {
        Err(e) => Err(e),
        Ok(d) => match d.initial_state {
            None => Err(InvalidProgram::MissingInitialState),
            Some(init) => Ok(
                ProgramModel {
                    initial_state: init,
                    final_states: d.final_states,
                    error_states: d.error_states,
                    transitions: d.transitions,
                },
            ),
        },
    }
}

// ---------------------------------------------------------------------------
// Executable parsing.
// ---------------------------------------------------------------------------

proof fn lemma_decimal_prefix(s: Seq<char>, k: int)
    requires
        0 <= k <= s.len(),
    ensures
        decimal_value(s.take(k)) <= decimal_value(s),
    decreases s.len(),
{
    if k < s.len() {
        lemma_decimal_prefix(s.drop_last(), k);
        assert(s.drop_last().take(k) =~= s.take(k));
    } else {
        assert(s.take(k) =~= s);
    }
}

/// Parse the state token `line[lo..hi]`.
fn parse_state(line: &Vec<char>, lo: usize, hi: usize) -> (r: Result<State, InvalidProgram>)
    requires
        lo <= hi <= line@.len(),
    ensures
        r == spec_parse_state(line@.subrange(lo as int, hi as int)),
{
    let ghost tok = line@.subrange(lo as int, hi as int);
    let mut i = lo;
    if i < hi && line[i] == '+' {
        i = i + 1;
    }
    let start = i;
    let ghost d = line@.subrange(start as int, hi as int);
    assert(d =~= state_digits(tok));
    if start == hi {
        return Err(InvalidProgram::InvalidState);
    }
    let mut value: usize = 0;
    while i < hi
        invariant
            lo <= start <= i <= hi <= line@.len(),
            d == line@.subrange(start as int, hi as int),
            tok == line@.subrange(lo as int, hi as int),
            d == state_digits(tok),
            forall|j: int| start <= j < i ==> is_digit(#[trigger] line@[j]),
            value == decimal_value(line@.subrange(start as int, i as int)),
        decreases hi - i,
    {
        let c = line[i];
        if !('0' <= c && c <= '9') {
            assert(d[i - start] == line@[i as int]);
            assert(!is_digit(d[i - start]));
            return Err(InvalidProgram::InvalidState);
        }
        let digit = (c as u32 - '0' as u32) as usize;
        let ghost prefix = line@.subrange(start as int, i + 1);
        assert(prefix.drop_last() =~= line@.subrange(start as int, i as int));
        match value.checked_mul(10) {
            None => {
                proof {
                    assert(d.take(i + 1 - start) =~= prefix);
                    lemma_decimal_prefix(d, i + 1 - start);
                }
                return Err(InvalidProgram::InvalidState);
            },
            Some(tens) => match tens.checked_add(digit) {
                None => {
                    proof {
                        assert(d.take(i + 1 - start) =~= prefix);
                        lemma_decimal_prefix(d, i + 1 - start);
                    }
                    return Err(InvalidProgram::InvalidState);
                },
                Some(v) => {
                    value = v;
                },
            },
        }
        i = i + 1;
    }
    assert(line@.subrange(start as int, i as int) =~= d);
    Ok(State(value))
}

proof fn lemma_single(tok: Seq<char>, c: char, x: char)
    requires
        tok == seq![c],
    ensures
        (tok == seq![x]) == (c == x),
{
    if tok == seq![x] {
        assert(seq![c][0] == seq![x][0]);
    }
}

/// Parse the movement token `line[lo..hi]`.
fn parse_move(line: &Vec<char>, lo: usize, hi: usize) -> (r: Result<Move, InvalidProgram>)
    requires
        lo <= hi <= line@.len(),
    ensures
        r == spec_parse_move(line@.subrange(lo as int, hi as int)),
{
    let ghost tok = line@.subrange(lo as int, hi as int);
    if hi == lo {
        assert(tok.len() == 0);
        assert(seq!['r'].len() == 1 && seq!['R'].len() == 1);
        assert(seq!['l'].len() == 1 && seq!['L'].len() == 1);
        return Ok(Move::Nothing);
    }
    if hi - lo != 1 {
        assert(tok.len() != 1);
        assert(tok != seq!['r'] && tok != seq!['R'] && tok != seq!['l'] && tok != seq!['L']);
        assert(tok != seq!['n'] && tok != seq!['N'] && tok != seq!['_'] && tok != seq![' ']);
        return Err(InvalidProgram::InvalidAction);
    }
    let c = line[lo];
    assert(tok =~= seq![c]);
    proof {
        lemma_single(tok, c, 'r');
        lemma_single(tok, c, 'R');
        lemma_single(tok, c, 'l');
        lemma_single(tok, c, 'L');
        lemma_single(tok, c, 'n');
        lemma_single(tok, c, 'N');
        lemma_single(tok, c, '_');
        lemma_single(tok, c, ' ');
    }
    if c == 'r' || c == 'R' {
        Ok(Move::Right)
    } else if c == 'l' || c == 'L' {
        Ok(Move::Left)
    } else if c == 'n' || c == 'N' || c == '_' || c == ' ' {
        Ok(Move::Nothing)
    } else {
        Err(InvalidProgram::InvalidAction)
    }
}

/// Each pair of `b` bounds the matching field of `f` in `line`.
pub open spec fn bounds_of_fields(
    line: Seq<char>,
    b: Seq<(usize, usize)>,
    f: Seq<Seq<char>>,
) -> bool {
    &&& b.len() == f.len()
    &&& forall|k: int|
        0 <= k < b.len() ==> {
            &&& (#[trigger] b[k]).0 <= b[k].1 <= line.len()
            &&& line.subrange(b[k].0 as int, b[k].1 as int) == f[k]
        }
}

proof fn lemma_bounds_push(
    line: Seq<char>,
    b: Seq<(usize, usize)>,
    f: Seq<Seq<char>>,
    lo: usize,
    hi: usize,
)
    requires
        bounds_of_fields(line, b, f),
        lo <= hi <= line.len(),
    ensures
        bounds_of_fields(line, b.push((lo, hi)), f.push(line.subrange(lo as int, hi as int))),
{
    let b2 = b.push((lo, hi));
    let f2 = f.push(line.subrange(lo as int, hi as int));
    assert forall|k: int| 0 <= k < b2.len() implies {
        &&& (#[trigger] b2[k]).0 <= b2[k].1 <= line.len()
        &&& line.subrange(b2[k].0 as int, b2[k].1 as int) == f2[k]
    } by {
        if k < b.len() {
            assert(b2[k] == b[k]);
            assert(f2[k] == f[k]);
        }
    }
}

/// The bounds of the comma separated fields of a line.
fn field_bounds(line: &Vec<char>) -> (r: Vec<(usize, usize)>)
    ensures
        bounds_of_fields(line@, r@, fields_from(line@, 0)),
{
    let mut bounds: Vec<(usize, usize)> = Vec::new();
    let mut start: usize = 0;
    let mut j: usize = 0;
    let ghost mut done: Seq<Seq<char>> = seq![];
    while j < line.len()
        invariant
            start <= j <= line@.len(),
            next_sep(line@, start as nat, ',') == next_sep(line@, j as nat, ','),
            fields_from(line@, 0) == done + fields_from(line@, start as nat),
            bounds_of_fields(line@, bounds@, done),
        decreases line.len() - j,
    {
        if line[j] == ',' {
            proof {
                lemma_next_sep_bounds(line@, start as nat, ',');
                assert(fields_from(line@, start as nat) == seq![
                    line@.subrange(start as int, j as int),
                ] + fields_from(line@, (j + 1) as nat));
                lemma_bounds_push(line@, bounds@, done, start, j);
                done = done.push(line@.subrange(start as int, j as int));
                assert(fields_from(line@, 0) =~= done + fields_from(line@, (j + 1) as nat));
            }
            bounds.push((start, j));
            start = j + 1;
        }
        j = j + 1;
    }
    proof {
        assert(fields_from(line@, start as nat) == seq![
            line@.subrange(start as int, line@.len() as int),
        ]);
        lemma_bounds_push(line@, bounds@, done, start, line.len());
        done = done.push(line@.subrange(start as int, line@.len() as int));
    }
    bounds.push((start, line.len()));
    assert(fields_from(line@, 0) =~= done);
    bounds
}

/// Parse a transition line.
fn parse_transition(line: &Vec<char>) -> (r: Result<Transition, InvalidProgram>)
    ensures
        r == spec_parse_transition(line@),
{
    let f = field_bounds(line);
    if f.len() < 1 {
        return Err(InvalidProgram::MissingFrom);
    }
    if f.len() < 2 {
        return Err(InvalidProgram::MissingTo);
    }
    if f.len() < 3 {
        return Err(InvalidProgram::MissingCondition);
    }
    if f.len() < 4 {
        return Err(InvalidProgram::MissingWrite);
    }
    if f.len() < 5 {
        return Err(InvalidProgram::MissingAction);
    }
    let from = match parse_state(line, f[0].0, f[0].1) {
        Ok(s) => s,
        Err(e) => return Err(e),
    };
    let to = match parse_state(line, f[1].0, f[1].1) {
        Ok(s) => s,
        Err(e) => return Err(e),
    };
    let condition = match parse_segment(line, f[2].0, f[2].1) {
        Ok(s) => s,
        Err(e) => return Err(e),
    };
    let write = match parse_segment(line, f[3].0, f[3].1) {
        Ok(s) => s,
        Err(e) => return Err(e),
    };
    let action = match parse_move(line, f[4].0, f[4].1) {
        Ok(m) => m,
        Err(e) => return Err(e),
    };
    Ok(Transition { from, to, condition, write, action })
}

} // verus!

verus! {

/// The transition table: one map per condition, keyed by the from state.
#[derive(Debug)]
struct Table {
    on_zero: HashMap<usize, Transition>,
    on_one: HashMap<usize, Transition>,
    on_empty: HashMap<usize, Transition>,
}

impl Table {
    spec fn map_for(&self, c: Segment) -> Map<usize, Transition> {
        match c {
            Segment::Zero => self.on_zero@,
            Segment::One => self.on_one@,
            Segment::Empty => self.on_empty@,
        }
    }

    spec fn view(&self) -> Map<(usize, Segment), Transition> {
        Map::new(
            |k: (usize, Segment)| self.map_for(k.1).contains_key(k.0),
            |k: (usize, Segment)| self.map_for(k.1)[k.0],
        )
    }

    fn new() -> (r: Table)
        ensures
            r.view() == Map::<(usize, Segment), Transition>::empty(),
    {
        let r = Table { on_zero: HashMap::new(), on_one: HashMap::new(), on_empty: HashMap::new() };
        assert(r.view() =~= Map::<(usize, Segment), Transition>::empty());
        r
    }

    fn insert(&mut self, t: Transition)
        ensures
            final(self).view() == old(self).view().insert((t.from.0, t.condition), t),
    {
        match t.condition {
            Segment::Zero => {
                self.on_zero.insert(t.from.0, t);
            },
            Segment::One => {
                self.on_one.insert(t.from.0, t);
            },
            Segment::Empty => {
                self.on_empty.insert(t.from.0, t);
            },
        }
        assert(self.view() =~= old(self).view().insert((t.from.0, t.condition), t));
    }

    fn get(&self, state: usize, c: Segment) -> (r: Option<&Transition>)
        ensures
            match r {
                Some(t) => self.view().contains_key((state, c)) && *t == self.view()[(state, c)],
                None => !self.view().contains_key((state, c)),
            },
    {
        match c {
            Segment::Zero => self.on_zero.get(&state),
            Segment::One => self.on_one.get(&state),
            Segment::Empty => self.on_empty.get(&state),
        }
    }
}

/// What the lines read so far have declared.
struct Builder {
    initial_state: Option<State>,
    final_states: HashSet<usize>,
    error_states: HashSet<usize>,
    transitions: Table,
}

impl Builder {
    spec fn view(&self) -> ProgramDraft {
        ProgramDraft {
            initial_state: self.initial_state,
            final_states: self.final_states@,
            error_states: self.error_states@,
            transitions: self.transitions.view(),
        }
    }

    fn new() -> (r: Builder)
        ensures
            r.view() == empty_draft(),
    {
        Builder {
            initial_state: None,
            final_states: HashSet::new(),
            error_states: HashSet::new(),
            transitions: Table::new(),
        }
    }

    /// Take one line into account.
    fn apply(&mut self, line: &Vec<char>) -> (r: Result<(), InvalidProgram>)
        ensures
            match r {
                Ok(_) => apply_line(old(self).view(), line@) == Ok::<
                    ProgramDraft,
                    InvalidProgram,
                >(final(self).view()),
                Err(e) => apply_line(old(self).view(), line@) == Err::<ProgramDraft, InvalidProgram>(
                    e,
                ),
            },
    {
        if line.len() == 0 || line[0] == '#' || line[0] == '/' {
            return Ok(());
        }
        let first = line[0];
        if first == '+' || first == '-' || first == '!' {
            assert(line@.drop_first() =~= line@.subrange(1, line@.len() as int));
            match parse_state(line, 1, line.len()) {
                Ok(s) => {
                    if first == '+' {
                        self.initial_state = Some(s);
                    } else if first == '-' {
                        self.final_states.insert(s.0);
                    } else {
                        self.error_states.insert(s.0);
                    }
                    Ok(())
                },
                Err(e) => Err(e),
            }
        } else {
            match parse_transition(line) {
                Ok(t) => {
                    self.transitions.insert(t);
                    Ok(())
                },
                Err(e) => Err(e),
            }
        }
    }
}

proof fn lemma_parse_lines_stops(a: Seq<Seq<char>>, b: Seq<Seq<char>>)
    requires
        parse_lines(a) is Err,
    ensures
        parse_lines(a + b) == parse_lines(a),
    decreases b.len(),
{
    if b.len() == 0 {
        assert(a + b =~= a);
    } else {
        lemma_parse_lines_stops(a, b.drop_last());
        assert((a + b).drop_last() =~= a + b.drop_last());
    }
}

/// A program for the [`crate::TuringMachine`].
///
/// Each program has:
///     - Exactly one initial [`State`], denoted by "+" followed by a state
///       number
///     - Any amount of final [`State`]s, denoted by any amount of "-" followed
///       by a state number
///     - Any amount of error [`State`]s, denoted by any amount of "!" followed
///       by a state number
///     - Any amount of comments, which are ignored and start with "#" or "/"
///     - Any amount of transitions, which have comma-separated values:
///         - The "from" state
///         - The "to" state
///         - The segment to match
///         - The segment to write
///         - The movement action to perform
///
/// Simple example, which adds 1 to a binary number:
/// ```text
/// +0
/// -3
/// 0,0,0,0,r
/// 0,0,1,1,r
/// 0,1,_,_,l
/// 1,2,0,1,l
/// 1,1,1,0,l
/// 1,3,_,1,n
/// 2,2,0,0,l
/// 2,2,1,1,l
/// 2,3,_,_,r
/// ```
#[derive(Debug)]
pub struct Program {
    initial_state: State,
    final_states: HashSet<usize>,
    error_states: HashSet<usize>,
    transitions: Table,
}

impl View for Program {
    type V = ProgramModel;

    closed spec fn view(&self) -> ProgramModel {
        ProgramModel {
            initial_state: self.initial_state,
            final_states: self.final_states@,
            error_states: self.error_states@,
            transitions: self.transitions.view(),
        }
    }
}

impl Program {
    fn from_parts(
        initial_state: State,
        final_states: HashSet<usize>,
        error_states: HashSet<usize>,
        transitions: Table,
    ) -> (r: Self)
        ensures
            r@ == (ProgramModel {
                initial_state,
                final_states: final_states@,
                error_states: error_states@,
                transitions: transitions.view(),
            }),
    {
        Program { initial_state, final_states, error_states, transitions }
    }

    /// Parse program text. The first offending line decides the error; a
    /// text without a `+` line fails with `MissingInitialState`.
    pub fn from_str(s: &str) -> (r: Result<Program, InvalidProgram>)
        ensures
            match r {
                Ok(p) => spec_parse_program(s@) == Ok::<ProgramModel, InvalidProgram>(p@),
                Err(e) => spec_parse_program(s@) == Err::<ProgramModel, InvalidProgram>(e),
            },
    {
        let text = chars_of(s);
        let mut b = Builder::new();
        let mut pos: usize = 0;
        let ghost mut done: Seq<Seq<char>> = seq![];
        assert(done + lines_from(text@, 0) =~= lines_from(text@, 0));
        while pos < text.len()
            invariant
                pos <= text@.len(),
                text@ == s@,
                lines_from(text@, 0) == done + lines_from(text@, pos as nat),
                parse_lines(done) == Ok::<ProgramDraft, InvalidProgram>(b.view()),
            decreases text.len() - pos,
        {
            let mut line: Vec<char> = Vec::new();
            let mut j = pos;
            while j < text.len() && text[j] != '\n'
                invariant
                    pos <= j <= text@.len(),
                    line@ == text@.subrange(pos as int, j as int),
                    next_sep(text@, pos as nat, '\n') == next_sep(text@, j as nat, '\n'),
                decreases text.len() - j,
            {
                line.push(text[j]);
                j = j + 1;
                assert(line@ =~= text@.subrange(pos as int, j as int));
            }
            let ghost raw = line@;
            if j < text.len() && line.len() > 0 && line[line.len() - 1] == '\r' {
                line.pop();
                assert(line@ =~= raw.drop_last());
            }
            proof {
                lemma_next_sep_bounds(text@, pos as nat, '\n');
                if j < text.len() {
                    assert(lines_from(text@, pos as nat) == seq![line@] + lines_from(
                        text@,
                        (j + 1) as nat,
                    ));
                } else {
                    assert(lines_from(text@, pos as nat) == seq![line@]);
                }
                assert(done.push(line@).drop_last() =~= done);
            }
            let ghost before = done;
            proof {
                done = done.push(line@);
            }
            match b.apply(&line) {
                Ok(_) => {},
                Err(e) => {
                    proof {
                        if j < text.len() {
                            assert(lines_from(text@, 0) =~= done + lines_from(
                                text@,
                                (j + 1) as nat,
                            ));
                            lemma_parse_lines_stops(done, lines_from(text@, (j + 1) as nat));
                        } else {
                            assert(lines_from(text@, 0) =~= done);
                        }
                    }
                    return Err(e);
                },
            }
            if j < text.len() {
                pos = j + 1;
                assert(lines_from(text@, 0) =~= done + lines_from(text@, pos as nat));
            } else {
                pos = j;
                assert(lines_from(text@, 0) =~= done + lines_from(text@, pos as nat));
            }
        }
        assert(lines_from(text@, 0) =~= done);
        match b.initial_state {
            None => Err(InvalidProgram::MissingInitialState),
            Some(init) => Ok(
                Program::from_parts(init, b.final_states, b.error_states, b.transitions),
            ),
        }
    }

    /// The initial state.
    pub fn initial_state(&self) -> (r: State)
        ensures
            r == self@.initial_state,
    {
        self.initial_state
    }

    /// Whether `state` is a final state.
    pub fn is_final(&self, state: State) -> (r: bool)
        ensures
            r == self@.final_states.contains(state.0),
    {
        self.final_states.contains(&state.0)
    }

    /// Whether `state` is an error state.
    pub fn is_error(&self, state: State) -> (r: bool)
        ensures
            r == self@.error_states.contains(state.0),
    {
        self.error_states.contains(&state.0)
    }

    /// The transition for `state` reading `segment`, if there is one.
    pub fn transition(&self, state: State, segment: Segment) -> (r: Option<&Transition>)
        ensures
            match r {
                Some(t) => self@.transitions.contains_key((state.0, segment)) && *t
                    == self@.transitions[(state.0, segment)],
                None => !self@.transitions.contains_key((state.0, segment)),
            },
    {
        self.transitions.get(state.0, segment)
    }
}

} // verus!

verus! {

/// Whether a line is read as a transition: not skipped, and not starting
/// with `+`, `-` or `!`.
pub open spec fn is_transition_line(line: Seq<char>) -> bool {
    !is_comment(line) && line[0] != '+' && line[0] != '-' && line[0] != '!'
}

/// Whether a line declares the initial state `s`.
pub open spec fn declares_initial(line: Seq<char>, s: State) -> bool {
    !is_comment(line) && line[0] == '+' && spec_parse_state(line.drop_first()) == Ok::<
        State,
        InvalidProgram,
    >(s)
}

/// The error for a transition line with `n` fields, when `n` is below five.
pub open spec fn missing_field_error(n: nat) -> InvalidProgram {
    if n == 0 {
        InvalidProgram::MissingFrom
    } else if n == 1 {
        InvalidProgram::MissingTo
    } else if n == 2 {
        InvalidProgram::MissingCondition
    } else if n == 3 {
        InvalidProgram::MissingWrite
    } else {
        InvalidProgram::MissingAction
    }
}

/// A transition line with fewer than five fields fails with the error of
/// the first missing field, whatever the fields that are there hold.
pub proof fn lemma_missing_field_first(line: Seq<char>)
    requires
        fields_from(line, 0).len() < 5,
    ensures
        spec_parse_transition(line) == Err::<Transition, InvalidProgram>(
            missing_field_error(fields_from(line, 0).len()),
        ),
{
}

proof fn lemma_prefix_ok(ls: Seq<Seq<char>>)
    requires
        ls.len() > 0,
        parse_lines(ls) is Ok,
    ensures
        parse_lines(ls.drop_last()) is Ok,
        apply_line(parse_lines(ls.drop_last())->Ok_0, ls.last()) == parse_lines(ls),
{
}

proof fn lemma_initial_kept(pre: Seq<Seq<char>>, post: Seq<Seq<char>>, s: State)
    requires
        parse_lines(pre + post) is Ok,
        parse_lines(pre) is Ok,
        parse_lines(pre)->Ok_0.initial_state == Some(s),
        forall|k: int| 0 <= k < post.len() ==> is_comment(#[trigger] post[k]) || post[k][0] != '+',
    ensures
        parse_lines(pre + post)->Ok_0.initial_state == Some(s),
    decreases post.len(),
{
    if post.len() > 0 {
        let all = pre + post;
        assert(all.drop_last() =~= pre + post.drop_last());
        lemma_prefix_ok(all);
        lemma_initial_kept(pre, post.drop_last(), s);
        assert(all.last() == post[post.len() - 1]);
    } else {
        assert(pre + post =~= pre);
    }
}

/// Of two `+` lines the later one decides: when the lines after a `+` line
/// hold no other `+` line and the text parses, its initial state is the
/// one that line declares.
pub proof fn lemma_later_initial_wins(
    text: Seq<char>,
    pre: Seq<Seq<char>>,
    line: Seq<char>,
    post: Seq<Seq<char>>,
    s: State,
)
    requires
        lines_from(text, 0) == pre + seq![line] + post,
        declares_initial(line, s),
        forall|k: int| 0 <= k < post.len() ==> is_comment(#[trigger] post[k]) || post[k][0] != '+',
        spec_parse_program(text) is Ok,
    ensures
        spec_parse_program(text)->Ok_0.initial_state == s,
{
    let head = pre.push(line);
    assert(pre + seq![line] + post =~= head + post);
    if parse_lines(head) is Err {
        lemma_parse_lines_stops(head, post);
    }
    assert(head.drop_last() =~= pre);
    lemma_initial_kept(head, post, s);
}

proof fn lemma_transition_kept(pre: Seq<Seq<char>>, post: Seq<Seq<char>>, t: Transition)
    requires
        parse_lines(pre + post) is Ok,
        parse_lines(pre) is Ok,
        parse_lines(pre)->Ok_0.transitions.contains_key((t.from.0, t.condition)),
        parse_lines(pre)->Ok_0.transitions[(t.from.0, t.condition)] == t,
        forall|k: int|
            0 <= k < post.len() && is_transition_line(#[trigger] post[k]) ==> !(spec_parse_transition(
                post[k],
            ) is Ok && spec_parse_transition(post[k])->Ok_0.from == t.from && spec_parse_transition(
                post[k],
            )->Ok_0.condition == t.condition),
    ensures
        parse_lines(pre + post)->Ok_0.transitions.contains_key((t.from.0, t.condition)),
        parse_lines(pre + post)->Ok_0.transitions[(t.from.0, t.condition)] == t,
    decreases post.len(),
{
    if post.len() > 0 {
        let all = pre + post;
        assert(all.drop_last() =~= pre + post.drop_last());
        lemma_prefix_ok(all);
        lemma_transition_kept(pre, post.drop_last(), t);
        assert(all.last() == post[post.len() - 1]);
    } else {
        assert(pre + post =~= pre);
    }
}

/// Of two transitions with the same from state and condition the later one
/// decides: when no later line defines that key again and the text
/// parses, the table holds exactly the transition of that line.
pub proof fn lemma_later_transition_wins(
    text: Seq<char>,
    pre: Seq<Seq<char>>,
    line: Seq<char>,
    post: Seq<Seq<char>>,
    t: Transition,
)
    requires
        lines_from(text, 0) == pre + seq![line] + post,
        is_transition_line(line),
        spec_parse_transition(line) == Ok::<Transition, InvalidProgram>(t),
        forall|k: int|
            0 <= k < post.len() && is_transition_line(#[trigger] post[k]) ==> !(spec_parse_transition(
                post[k],
            ) is Ok && spec_parse_transition(post[k])->Ok_0.from == t.from && spec_parse_transition(
                post[k],
            )->Ok_0.condition == t.condition),
        spec_parse_program(text) is Ok,
    ensures
        spec_parse_program(text)->Ok_0.transitions.contains_key((t.from.0, t.condition)),
        spec_parse_program(text)->Ok_0.transitions[(t.from.0, t.condition)] == t,
{
    let head = pre.push(line);
    assert(pre + seq![line] + post =~= head + post);
    if parse_lines(head) is Err {
        lemma_parse_lines_stops(head, post);
    }
    assert(head.drop_last() =~= pre);
    lemma_transition_kept(head, post, t);
}

} // verus!

verus! {

impl State {
    /// Parse a state token: an optional `+` and decimal digits.
    pub fn from_str(s: &str) -> (r: Result<State, InvalidProgram>)
        ensures
            r == spec_parse_state(s@),
    {
        let chars = chars_of(s);
        assert(chars@.subrange(0, chars@.len() as int) =~= s@);
        parse_state(&chars, 0, chars.len())
    }
}

impl Move {
    /// Parse a movement token.
    pub fn from_str(s: &str) -> (r: Result<Move, InvalidProgram>)
        ensures
            r == spec_parse_move(s@),
    {
        let chars = chars_of(s);
        assert(chars@.subrange(0, chars@.len() as int) =~= s@);
        parse_move(&chars, 0, chars.len())
    }
}

impl Transition {
    /// Parse a transition line: from, to, condition, write and action,
    /// separated by commas.
    pub fn from_str(s: &str) -> (r: Result<Transition, InvalidProgram>)
        ensures
            r == spec_parse_transition(s@),
    {
        let chars = chars_of(s);
        parse_transition(&chars)
    }
}

} // verus!
