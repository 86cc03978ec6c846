use std::collections::VecDeque;

use vstd::prelude::*;

use crate::error::InvalidProgram;
use crate::text::{chars_of, push_char};

verus! {

/// A segment on the infinite [`Tape`].
#[derive(Debug, Clone, Copy, PartialEq, Eq, Hash, Structural)]
pub enum Segment {
    Zero,
    One,
    Empty,
}

/// The segment that a character of tape or program text stands for.
pub open spec fn segment_of_char(c: char) -> Option<Segment> {
    if c == '1' {
        Some(Segment::One)
    } else if c == '0' {
        Some(Segment::Zero)
    } else if c == '_' || c == ' ' {
        Some(Segment::Empty)
    } else {
        None
    }
}

/// The canonical character of a segment.
pub open spec fn char_of_segment(s: Segment) -> char {
    match s {
        Segment::One => '1',
        Segment::Zero => '0',
        Segment::Empty => '_',
    }
}

/// A segment token: exactly one of `1`, `0`, `_` or space.
pub open spec fn spec_parse_segment(tok: Seq<char>) -> Result<Segment, InvalidProgram> {
    if tok.len() == 1 && segment_of_char(tok[0]) is Some {
        Ok(segment_of_char(tok[0])->0)
    } else {
        Err(InvalidProgram::InvalidSegment)
    }
}

/// Whether a character of tape text is a `1` or a `0`.
pub open spec fn is_mark(c: char) -> bool {
    c == '1' || c == '0'
}

/// The index of the first `1` or `0` at or after `i`, or 0 if there is none.
pub open spec fn first_mark(text: Seq<char>, i: nat) -> nat
    decreases text.len() - i,
{
    if i >= text.len() {
        0
    } else if is_mark(text[i as int]) {
        i
    } else {
        first_mark(text, i + 1)
    }
}

/// Whether every character of the text stands for a segment.
pub open spec fn is_tape_text(text: Seq<char>) -> bool {
    forall|i: int| 0 <= i < text.len() ==> (#[trigger] segment_of_char(text[i])) is Some
}

/// The segments of tape text; an empty text is a single blank segment.
pub open spec fn cells_of_text(text: Seq<char>) -> Seq<Segment> {
    if text.len() == 0 {
        seq![Segment::Empty]
    } else {
        text.map_values(|c: char| segment_of_char(c)->0)
    }
}

/// The tape that a tape text describes: one segment per character, the
/// cursor on the first `1` or `0` (else on the first segment).
pub open spec fn spec_parse_tape(text: Seq<char>) -> Result<TapeModel, InvalidProgram> {
    if is_tape_text(text) {
        Ok(TapeModel { cells: cells_of_text(text), cursor: first_mark(text, 0) })
    } else {
        Err(InvalidProgram::InvalidSegment)
    }
}

/// The display text of a sequence of segments, one character each.
pub open spec fn render_cells(cells: Seq<Segment>) -> Seq<char> {
    cells.map_values(|s: Segment| char_of_segment(s))
}

/// The materialized window of a tape and its cursor.
pub struct TapeModel {
    pub cells: Seq<Segment>,
    pub cursor: nat,
}

impl TapeModel {
    /// The cursor indexes a materialized segment.
    pub open spec fn wf(self) -> bool {
        self.cursor < self.cells.len()
    }

    pub open spec fn read(self) -> Segment {
        self.cells[self.cursor as int]
    }

    pub open spec fn write(self, s: Segment) -> TapeModel {
        TapeModel { cells: self.cells.update(self.cursor as int, s), cursor: self.cursor }
    }

    /// One step right; a blank is appended when the cursor leaves the window.
    pub open spec fn right(self) -> TapeModel {
        if self.cursor + 1 >= self.cells.len() {
            TapeModel { cells: self.cells.push(Segment::Empty), cursor: self.cursor + 1 }
        } else {
            TapeModel { cells: self.cells, cursor: self.cursor + 1 }
        }
    }

    /// One step left; a blank is prepended when the cursor leaves the window.
    pub open spec fn left(self) -> TapeModel {
        if self.cursor == 0 {
            TapeModel { cells: seq![Segment::Empty] + self.cells, cursor: 0 }
        } else {
            TapeModel { cells: self.cells, cursor: (self.cursor - 1) as nat }
        }
    }
}

/// An infinite working buffer for the [`crate::TuringMachine`].
///
/// Advancing the tape past the known segments will create
/// empty segments dynamically.
pub trait Tape {
    /// The materialized segments and the cursor.
    spec fn model(&self) -> TapeModel;

    /// Advance the cursor to the right by one.
    fn right(&mut self)
        requires
            old(self).model().wf(),
        ensures
            final(self).model() == old(self).model().right(),
    ;

    /// Advance the cursor to the left by one.
    fn left(&mut self)
        requires
            old(self).model().wf(),
        ensures
            final(self).model() == old(self).model().left(),
    ;

    /// Write to the segment at the cursor position.
    fn put(&mut self, segment: Segment)
        requires
            old(self).model().wf(),
        ensures
            final(self).model() == old(self).model().write(segment),
    ;

    /// View the segment at the cursor position.
    fn current(&self) -> (r: &Segment)
        requires
            self.model().wf(),
        ensures
            *r == self.model().read(),
    ;
}

impl Segment {
    /// Parse a segment token: `1`, `0`, `_` or a space.
    pub fn from_str(s: &str) -> (r: Result<Segment, InvalidProgram>)
        ensures
            r == spec_parse_segment(s@),
    {
        let chars = chars_of(s);
        let r = parse_segment(&chars, 0, chars.len());
        assert(chars@.subrange(0, chars@.len() as int) =~= s@);
        r
    }

    /// The canonical character of this segment.
    pub fn to_char(&self) -> (c: char)
        ensures
            c == char_of_segment(*self),
    {
        match self {
            Segment::One => '1',
            Segment::Zero => '0',
            Segment::Empty => '_',
        }
    }
}

pub(crate) fn segment_from_char(c: char) -> (r: Option<Segment>)
    ensures
        r == segment_of_char(c),
{
    if c == '1' {
        Some(Segment::One)
    } else if c == '0' {
        Some(Segment::Zero)
    } else if c == '_' || c == ' ' {
        Some(Segment::Empty)
    } else {
        None
    }
}

/// Parse the segment token `text[lo..hi]`.
pub(crate) fn parse_segment(text: &Vec<char>, lo: usize, hi: usize) -> (r: Result<
    Segment,
    InvalidProgram,
>)
    requires
        lo <= hi <= text@.len(),
    ensures
        r == spec_parse_segment(text@.subrange(lo as int, hi as int)),
{
    if hi - lo != 1 {
        return Err(InvalidProgram::InvalidSegment);
    }
    match segment_from_char(text[lo]) {
        Some(s) => Ok(s),
        None => Err(InvalidProgram::InvalidSegment),
    }
}

/// The segments and cursor that tape text describes, as a vector.
fn parse_tape_cells(s: &str) -> (r: Result<(Vec<Segment>, usize), InvalidProgram>)
    ensures
        match r {
            Ok((cells, cursor)) => spec_parse_tape(s@) == Ok::<TapeModel, InvalidProgram>(
                TapeModel { cells: cells@, cursor: cursor as nat },
            ),
            Err(e) => spec_parse_tape(s@) == Err::<TapeModel, InvalidProgram>(e),
        },
{
    let text = chars_of(s);
    let mut inner: Vec<Segment> = Vec::new();
    let mut position: usize = 0;
    let mut found = false;
    let mut idx: usize = 0;
    while idx < text.len()
        invariant
            idx <= text@.len(),
            text@ == s@,
            inner@.len() == idx,
            forall|j: int| 0 <= j < idx ==> (#[trigger] segment_of_char(text@[j])) is Some,
            forall|j: int| 0 <= j < idx ==> inner@[j] == segment_of_char(text@[j])->0,
            found ==> position as nat == first_mark(text@, 0),
            !found ==> first_mark(text@, 0) == first_mark(text@, idx as nat),
            !found ==> position == 0,
        decreases text.len() - idx,
    {
        let c = text[idx];
        match segment_from_char(c) {
            Some(seg) => {
                inner.push(seg);
                if !found && (c == '1' || c == '0') {
                    found = true;
                    position = idx;
                }
            },
            None => {
                assert(!is_tape_text(s@));
                return Err(InvalidProgram::InvalidSegment);
            },
        }
        idx = idx + 1;
    }
    if text.len() == 0 {
        inner.push(Segment::Empty);
        assert(inner@ =~= cells_of_text(s@));
    } else {
        assert(inner@ =~= cells_of_text(s@));
    }
    Ok((inner, position))
}

/// The display text of the segments: `1`, `0` or `_` for each, no cursor.
fn render_segments(cells: &Vec<Segment>) -> (r: String)
    ensures
        r@ == render_cells(cells@),
{
    let mut out = String::new();
    let mut i: usize = 0;
    while i < cells.len()
        invariant
            i <= cells@.len(),
            out@ =~= render_cells(cells@.take(i as int)),
        decreases cells.len() - i,
    {
        push_char(&mut out, cells[i].to_char());
        i = i + 1;
        assert(cells@.take(i as int) =~= cells@.take(i - 1).push(cells@[i - 1]));
    }
    assert(cells@.take(i as int) =~= cells@);
    out
}

/// A [`Tape`] backed by a [`Vec`].
#[derive(Debug, PartialEq, Eq)]
pub struct VecTape {
    inner: Vec<Segment>,
    position: usize,
}

/// The tape type of the single-tape machine.
pub type Band = VecTape;

impl VecTape {
    /// Create a new tape with a known part of the tape and a
    /// specific cursor position.
    pub fn new(inner: Vec<Segment>, position: usize) -> (r: Self)
        requires
            position < inner@.len(),
        ensures
            r.model() == (TapeModel { cells: inner@, cursor: position as nat }),
    {
        VecTape { inner, position }
    }

    /// Parse tape text: one segment per character, the cursor on the first
    /// `1` or `0`.
    pub fn from_str(s: &str) -> (r: Result<Self, InvalidProgram>)
        ensures
            match r {
                Ok(t) => spec_parse_tape(s@) == Ok::<TapeModel, InvalidProgram>(t.model()),
                Err(e) => spec_parse_tape(s@) == Err::<TapeModel, InvalidProgram>(e),
            },
    {
        match parse_tape_cells(s) {
            Ok((inner, position)) => Ok(VecTape { inner, position }),
            Err(e) => Err(e),
        }
    }

    /// The display text of the tape.
    pub fn render(&self) -> (r: String)
        ensures
            r@ == render_cells(self.model().cells),
    {
        render_segments(&self.inner)
    }

    /// The materialized segments, in order.
    pub fn cells(&self) -> (r: &Vec<Segment>)
        ensures
            r@ == self.model().cells,
    {
        &self.inner
    }
}

impl Tape for VecTape {
    closed spec fn model(&self) -> TapeModel {
        TapeModel { cells: self.inner@, cursor: self.position as nat }
    }

    fn right(&mut self) {
        let len = self.inner.len();
        self.position = self.position + 1;
        if self.position == len {
            self.inner.push(Segment::Empty);
        }
    }

    fn left(&mut self) {
        if self.position == 0 {
            self.inner.insert(0, Segment::Empty);
            assert(self.inner@ =~= seq![Segment::Empty] + old(self).inner@);
        } else {
            self.position = self.position - 1;
        }
    }

    fn put(&mut self, segment: Segment) {
        self.inner.set(self.position, segment);
    }

    fn current(&self) -> (r: &Segment) {
        &self.inner[self.position]
    }
}

/// A [`Tape`] backed by a [`VecDeque`].
#[derive(Debug, PartialEq, Eq)]
pub struct VecDequeTape {
    inner: VecDeque<Segment>,
    position: usize,
}

/// Relies on `VecDeque`'s `IndexMut`: replaces the element at index `i`.
#[verifier::external_body]
fn deque_set(v: &mut VecDeque<Segment>, i: usize, s: Segment)
    requires
        i < old(v)@.len(),
    ensures
        final(v)@ == old(v)@.update(i as int, s),
{
    v[i] = s;
}

impl VecDequeTape {
    /// Create a new tape with a known part of the tape and a
    /// specific cursor position.
    pub fn new(inner: VecDeque<Segment>, position: usize) -> (r: Self)
        requires
            position < inner@.len(),
        ensures
            r.model() == (TapeModel { cells: inner@, cursor: position as nat }),
    {
        VecDequeTape { inner, position }
    }

    /// Parse tape text: one segment per character, the cursor on the first
    /// `1` or `0`.
    pub fn from_str(s: &str) -> (r: Result<Self, InvalidProgram>)
        ensures
            match r {
                Ok(t) => spec_parse_tape(s@) == Ok::<TapeModel, InvalidProgram>(t.model()),
                Err(e) => spec_parse_tape(s@) == Err::<TapeModel, InvalidProgram>(e),
            },
    {
        match parse_tape_cells(s) {
            Ok((cells, position)) => {
                let mut inner: VecDeque<Segment> = VecDeque::new();
                let mut i: usize = 0;
                while i < cells.len()
                    invariant
                        i <= cells@.len(),
                        inner@ == cells@.take(i as int),
                    decreases cells.len() - i,
                {
                    inner.push_back(cells[i]);
                    i = i + 1;
                    assert(cells@.take(i as int) =~= cells@.take(i - 1).push(cells@[i - 1]));
                }
                assert(cells@.take(i as int) =~= cells@);
                Ok(VecDequeTape { inner, position })
            },
            Err(e) => Err(e),
        }
    }

    /// The display text of the tape.
    pub fn render(&self) -> (r: String)
        ensures
            r@ == render_cells(self.model().cells),
    {
        let mut out = String::new();
        let mut i: usize = 0;
        while i < self.inner.len()
            invariant
                i <= self.inner@.len(),
                out@ =~= render_cells(self.inner@.take(i as int)),
            decreases self.inner@.len() - i,
        {
            push_char(&mut out, self.inner[i].to_char());
            i = i + 1;
            assert(self.inner@.take(i as int) =~= self.inner@.take(i - 1).push(
                self.inner@[i - 1],
            ));
        }
        assert(self.inner@.take(i as int) =~= self.inner@);
        out
    }

    /// The materialized segments, in order.
    pub fn cells(&self) -> (r: Vec<Segment>)
        ensures
            r@ == self.model().cells,
    {
        let mut out: Vec<Segment> = Vec::new();
        let mut i: usize = 0;
        while i < self.inner.len()
            invariant
                i <= self.inner@.len(),
                out@ == self.inner@.take(i as int),
            decreases self.inner@.len() - i,
        {
            out.push(self.inner[i]);
            i = i + 1;
            assert(self.inner@.take(i as int) =~= self.inner@.take(i - 1).push(
                self.inner@[i - 1],
            ));
        }
        assert(self.inner@.take(i as int) =~= self.inner@);
        out
    }
}

impl Tape for VecDequeTape {
    closed spec fn model(&self) -> TapeModel {
        TapeModel { cells: self.inner@, cursor: self.position as nat }
    }

    fn right(&mut self) {
        let len = self.inner.len();
        self.position = self.position + 1;
        if self.position == len {
            self.inner.push_back(Segment::Empty);
        }
    }

    fn left(&mut self) {
        if self.position == 0 {
            self.inner.push_front(Segment::Empty);
        } else {
            self.position = self.position - 1;
        }
    }

    fn put(&mut self, segment: Segment) {
        deque_set(&mut self.inner, self.position, segment);
    }

    fn current(&self) -> (r: &Segment) {
        &self.inner[self.position]
    }
}

} // verus!

verus! {

/// Rendering a valid tape and parsing the text back gives the same
/// materialized segments (the cursor is not part of the text).
pub proof fn lemma_render_then_parse(t: TapeModel)
    requires
        t.wf(),
    ensures
        spec_parse_tape(render_cells(t.cells)) is Ok,
        spec_parse_tape(render_cells(t.cells))->Ok_0.cells == t.cells,
{
    let text = render_cells(t.cells);
    assert forall|i: int| 0 <= i < text.len() implies (#[trigger] segment_of_char(text[i])) is Some by {
        assert(text[i] == char_of_segment(t.cells[i]));
    }
    assert(text.len() > 0);
    assert(cells_of_text(text) =~= t.cells);
}

} // verus!
