use vstd::prelude::*;

use crate::error::ExecutionError;
use crate::program::{Move, Program, ProgramModel, State};
use crate::tape::{Band, Segment, Tape, TapeModel};

verus! {

/// The number of steps after which `execute` gives up.
pub const STEP_LIMIT: u128 = 0xffff_ffff_ffff_ffff_ffff_ffff_ffff_ffff;

/// The tape after a movement action.
pub open spec fn apply_move(t: TapeModel, m: Move) -> TapeModel {
    match m {
        Move::Left => t.left(),
        Move::Right => t.right(),
        Move::Nothing => t,
    }
}

/// What one step of a machine leads to.
pub enum Step {
    /// The machine goes on in this state with this tape.
    Continue(State, TapeModel),
    /// The machine stops with this result and this tape.
    Halt(Result<State, ExecutionError>, TapeModel),
}

/// One step: look up the transition for the state and the segment under the
/// cursor, write, move, and change state; then stop in a final state (that
/// check comes first) or an error state.
pub open spec fn step(p: ProgramModel, state: State, t: TapeModel) -> Step {
    let c = t.read();
    if !p.transitions.contains_key((state.0, c)) {
        Step::Halt(Err(ExecutionError::UndefinedBehavior(state, c)), t)
    } else {
        let tr = p.transitions[(state.0, c)];
        let t2 = apply_move(t.write(tr.write), tr.action);
        if p.final_states.contains(tr.to.0) {
            Step::Halt(Ok(tr.to), t2)
        } else if p.error_states.contains(tr.to.0) {
            Step::Halt(Err(ExecutionError::ReachedError(tr.to)), t2)
        } else {
            Step::Continue(tr.to, t2)
        }
    }
}

/// The result and the tape if the machine stops within `fuel` steps.
pub open spec fn run(p: ProgramModel, state: State, t: TapeModel, fuel: nat) -> Option<
    (Result<State, ExecutionError>, TapeModel),
>
    decreases fuel,
{
    if fuel == 0 {
        None
    } else {
        match step(p, state, t) {
            Step::Halt(r, t2) => Some((r, t2)),
            Step::Continue(s2, t2) => run(p, s2, t2, (fuel - 1) as nat),
        }
    }
}

/// The state and the tape after `n` steps, if the machine has not stopped.
pub open spec fn config_after(p: ProgramModel, state: State, t: TapeModel, n: nat) -> Option<
    (State, TapeModel),
>
    decreases n,
{
    if n == 0 {
        Some((state, t))
    } else {
        match step(p, state, t) {
            Step::Halt(_, _) => None,
            Step::Continue(s2, t2) => config_after(p, s2, t2, (n - 1) as nat),
        }
    }
}

/// What `execute` returns, and the tape it leaves, from this start.
pub open spec fn outcome(p: ProgramModel, t: TapeModel) -> (Result<State, ExecutionError>, TapeModel) {
    match run(p, p.initial_state, t, STEP_LIMIT as nat) {
        Some(done) => done,
        None => match config_after(p, p.initial_state, t, STEP_LIMIT as nat) {
            Some((s, t2)) => (Err(ExecutionError::OutOfSteps(s)), t2),
            None => (Err(ExecutionError::OutOfSteps(p.initial_state)), t),
        },
    }
}

proof fn lemma_step_keeps_wf(p: ProgramModel, state: State, t: TapeModel)
    requires
        t.wf(),
    ensures
        match step(p, state, t) {
            Step::Halt(_, t2) => t2.wf(),
            Step::Continue(_, t2) => t2.wf(),
        },
{
}

proof fn lemma_advance(p: ProgramModel, s0: State, t0: TapeModel, n: nat, s: State, t: TapeModel)
    requires
        config_after(p, s0, t0, n) == Some((s, t)),
        run(p, s0, t0, n) is None,
    ensures
        config_after(p, s0, t0, n + 1) == (match step(p, s, t) {
            Step::Continue(s2, t2) => Some((s2, t2)),
            Step::Halt(_, _) => None::<(State, TapeModel)>,
        }),
        run(p, s0, t0, n + 1) == (match step(p, s, t) {
            Step::Continue(_, _) => None::<(Result<State, ExecutionError>, TapeModel)>,
            Step::Halt(r, t2) => Some((r, t2)),
        }),
    decreases n,
{
    if n > 0 {
        match step(p, s0, t0) {
            Step::Continue(s1, t1) => {
                lemma_advance(p, s1, t1, (n - 1) as nat, s, t);
                assert((n - 1) as nat + 1 == n);
            },
            Step::Halt(_, _) => {},
        }
    } else {
        match step(p, s, t) {
            Step::Continue(s2, t2) => {
                assert(config_after(p, s2, t2, 0) == Some((s2, t2)));
                assert(run(p, s2, t2, 0) is None);
            },
            Step::Halt(_, _) => {},
        }
    }
}

proof fn lemma_run_stable(p: ProgramModel, s0: State, t0: TapeModel, n: nat, m: nat)
    requires
        run(p, s0, t0, n) is Some,
        n <= m,
    ensures
        run(p, s0, t0, m) == run(p, s0, t0, n),
    decreases n,
{
    if n > 0 {
        match step(p, s0, t0) {
            Step::Continue(s1, t1) => {
                lemma_run_stable(p, s1, t1, (n - 1) as nat, (m - 1) as nat);
            },
            Step::Halt(_, _) => {},
        }
    }
}

/// The actual turing machine that can execute [`Program`]s.
#[derive(Debug)]
pub struct TuringMachine<T> {
    tape: T,
}

impl<T: Tape> TuringMachine<T> {
    /// The tape the machine works on.
    pub closed spec fn held_tape(&self) -> T {
        self.tape
    }

    /// Create a new [`TuringMachine`] from a [`Tape`].
    pub fn from_tape(tape: T) -> (r: Self)
        ensures
            r.held_tape() == tape,
    {
        TuringMachine { tape }
    }

    /// Returns a reference to the internal [`Tape`] used by the machine.
    pub fn tape(&self) -> (r: &T)
        ensures
            *r == self.held_tape(),
    {
        &self.tape
    }

    /// Returns a mutable reference to the internal [`Tape`] used by the
    /// machine.
    pub fn tape_mut(&mut self) -> (r: &mut T)
        ensures
            *r == old(self).held_tape(),
            final(self).held_tape() == *final(r),
    {
        &mut self.tape
    }

    /// Run a [`Program`] with this turing machine, from its initial state,
    /// until a final state, an error state or a missing transition.
    ///
    /// Steps are counted in a `u128`; a machine that has not stopped after
    /// [`STEP_LIMIT`] steps yields `OutOfSteps`, which no real run reaches,
    /// so a program that never stops keeps the caller waiting.
    pub fn execute(&mut self, program: &Program) -> (r: Result<State, ExecutionError>)
        requires
            old(self).held_tape().model().wf(),
        ensures
            (r, final(self).held_tape().model()) == outcome(
                program@,
                old(self).held_tape().model(),
            ),
            final(self).held_tape().model().wf(),
    {
        let ghost p = program@;
        let ghost t0 = self.tape.model();
        let mut state = program.initial_state();
        let mut steps: u128 = 0;
        while steps < STEP_LIMIT
            invariant
                p == program@,
                t0 == old(self).held_tape().model(),
                self.tape.model().wf(),
                config_after(p, p.initial_state, t0, steps as nat) == Some(
                    (state, self.tape.model()),
                ),
                run(p, p.initial_state, t0, steps as nat) is None,
            decreases STEP_LIMIT - steps,
        {
            let ghost s = state;
            let ghost t = self.tape.model();
            proof {
                lemma_advance(p, p.initial_state, t0, steps as nat, s, t);
                lemma_step_keeps_wf(p, s, t);
            }
            let current = *self.tape.current();
            let transition = match program.transition(state, current) {
                Some(tr) => *tr,
                None => {
                    proof {
                        lemma_run_stable(
                            p,
                            p.initial_state,
                            t0,
                            (steps + 1) as nat,
                            STEP_LIMIT as nat,
                        );
                    }
                    return Err(ExecutionError::UndefinedBehavior(state, current));
                },
            };
            self.tape.put(transition.write);
            match transition.action {
                Move::Left => self.tape.left(),
                Move::Right => self.tape.right(),
                Move::Nothing => {},
            }
            state = transition.to;
            steps = steps + 1;
            if program.is_final(state) {
                proof {
                    lemma_run_stable(p, p.initial_state, t0, steps as nat, STEP_LIMIT as nat);
                }
                return Ok(state);
            }
            if program.is_error(state) {
                proof {
                    lemma_run_stable(p, p.initial_state, t0, steps as nat, STEP_LIMIT as nat);
                }
                return Err(ExecutionError::ReachedError(state));
            }
        }
        Err(ExecutionError::OutOfSteps(state))
    }
}

impl TuringMachine<Band> {
    /// Create a new [`TuringMachine`] from a [`Band`].
    pub fn from_band(band: Band) -> (r: Self)
        ensures
            r.held_tape() == band,
    {
        TuringMachine { tape: band }
    }

    /// Returns a reference to the internal [`Band`] used by the machine.
    pub fn band(&self) -> (r: &Band)
        ensures
            *r == self.held_tape(),
    {
        &self.tape
    }

    /// Returns a mutable reference to the internal [`Band`] used by the
    /// machine.
    pub fn band_mut(&mut self) -> (r: &mut Band)
        ensures
            *r == old(self).held_tape(),
            final(self).held_tape() == *final(r),
    {
        &mut self.tape
    }
}

} // verus!

verus! {

/// The tape after a sequence of movement actions, in order.
pub open spec fn apply_moves(t: TapeModel, moves: Seq<Move>) -> TapeModel
    decreases moves.len(),
{
    if moves.len() == 0 {
        t
    } else {
        apply_move(apply_moves(t, moves.drop_last()), moves.last())
    }
}

/// `inner` stands in `outer` from index `off` on, and everything around it
/// is blank.
pub open spec fn embeds(outer: Seq<Segment>, inner: Seq<Segment>, off: int) -> bool {
    &&& 0 <= off
    &&& off + inner.len() <= outer.len()
    &&& outer.subrange(off, off + inner.len()) == inner
    &&& forall|i: int|
        0 <= i < outer.len() && !(off <= i < off + inner.len()) ==> #[trigger] outer[i]
            == Segment::Empty
}

proof fn lemma_move_keeps_embedding(
    t: TapeModel,
    r: TapeModel,
    off: int,
    m: Move,
)
    requires
        r.wf(),
        embeds(r.cells, t.cells, off),
    ensures
        apply_move(r, m).wf(),
        r.cells.len() <= apply_move(r, m).cells.len() <= r.cells.len() + 1,
        embeds(apply_move(r, m).cells, t.cells, off) || embeds(
            apply_move(r, m).cells,
            t.cells,
            off + 1,
        ),
{
    let r2 = apply_move(r, m);
    let n = t.cells.len();
    if m == Move::Left && r.cursor == 0 {
        assert(r2.cells.subrange(off + 1, off + 1 + n) =~= r.cells.subrange(off, off + n));
        assert forall|i: int|
            0 <= i < r2.cells.len() && !(off + 1 <= i < off + 1 + n) implies #[trigger] r2.cells[i]
            == Segment::Empty by {
            if i > 0 {
                assert(r2.cells[i] == r.cells[i - 1]);
            }
        }
        assert(embeds(r2.cells, t.cells, off + 1));
    } else if m == Move::Right && r.cursor + 1 >= r.cells.len() {
        assert(r2.cells.subrange(off, off + n) =~= r.cells.subrange(off, off + n));
        assert forall|i: int|
            0 <= i < r2.cells.len() && !(off <= i < off + n) implies #[trigger] r2.cells[i]
            == Segment::Empty by {
            if i < r.cells.len() {
                assert(r2.cells[i] == r.cells[i]);
            }
        }
        assert(embeds(r2.cells, t.cells, off));
    } else {
        assert(r2.cells == r.cells);
    }
}

/// Whatever sequence of moves is made from a valid tape, the cursor stays
/// on a materialized segment, each move materializes at most one blank, and
/// the segments there before keep their order with only blanks around them.
pub proof fn lemma_moves_keep_cursor_inside(t: TapeModel, moves: Seq<Move>)
    requires
        t.wf(),
    ensures
        apply_moves(t, moves).wf(),
        t.cells.len() <= apply_moves(t, moves).cells.len() <= t.cells.len() + moves.len(),
        exists|off: int| embeds(apply_moves(t, moves).cells, t.cells, off),
    decreases moves.len(),
{
    if moves.len() == 0 {
        assert(t.cells.subrange(0, t.cells.len() as int) =~= t.cells);
        assert(embeds(t.cells, t.cells, 0));
    } else {
        let prev = moves.drop_last();
        lemma_moves_keep_cursor_inside(t, prev);
        let r = apply_moves(t, prev);
        let off = choose|off: int| embeds(r.cells, t.cells, off);
        lemma_move_keeps_embedding(t, r, off, moves.last());
        if embeds(apply_moves(t, moves).cells, t.cells, off) {
            assert(embeds(apply_moves(t, moves).cells, t.cells, off));
        } else {
            assert(embeds(apply_moves(t, moves).cells, t.cells, off + 1));
        }
    }
}

} // verus!
