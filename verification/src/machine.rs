use vstd::prelude::*;

verus! {

/// Why a run stopped before the program counter reached the end of the
/// stream. The cursor is bounds-checked here: a move that would take it
/// outside the tape stops the run instead of touching foreign memory, and
/// exhausted input stops it instead of blocking forever.
#[derive(Clone, Copy, PartialEq, Eq, Structural, Debug)]
pub enum RunError {
    CursorOutOfRange,
    InputExhausted,
    UnmatchedBracket,
}

/// The whole observable state of an executing machine: the tape with its
/// cursor, the program counter, the input not yet consumed, the output
/// produced so far, and the failure that stopped the run, if any.
pub struct MachineState {
    pub tape: Seq<u8>,
    pub cursor: int,
    pub pc: int,
    pub input: Seq<u8>,
    pub output: Seq<u8>,
    pub failure: Option<RunError>,
}

impl MachineState {
    /// The initial state: a zeroed tape of the given length, cursor and
    /// program counter at zero, the given input still unread, no output.
    pub open spec fn init(tape_len: nat, input: Seq<u8>) -> MachineState {
        MachineState {
            tape: Seq::new(tape_len, |i: int| 0u8),
            cursor: 0,
            pc: 0,
            input,
            output: Seq::empty(),
            failure: None,
        }
    }

    /// Whether the cursor points at a tape cell.
    pub open spec fn cursor_in_range(self) -> bool {
        0 <= self.cursor < self.tape.len()
    }

    /// The cell under the cursor.
    pub open spec fn cell(self) -> u8 {
        self.tape[self.cursor]
    }

    /// The same state with the given failure recorded.
    pub open spec fn fail(self, e: RunError) -> MachineState {
        MachineState { failure: Some(e), ..self }
    }
}

/// Addition on one cell, modulo 256.
pub open spec fn cell_add(v: u8, d: u8) -> u8 {
    if v + d > 255 {
        (v + d - 256) as u8
    } else {
        (v + d) as u8
    }
}

/// Moving the cursor by `d` cells; leaving the tape stops the run.
pub open spec fn step_move(s: MachineState, d: int) -> MachineState {
    if 0 <= s.cursor + d < s.tape.len() {
        MachineState { cursor: s.cursor + d, pc: s.pc + 1, ..s }
    } else {
        s.fail(RunError::CursorOutOfRange)
    }
}

/// Adding `d` to the cell under the cursor, modulo 256.
pub open spec fn step_add(s: MachineState, d: u8) -> MachineState {
    if s.cursor_in_range() {
        MachineState {
            tape: s.tape.update(s.cursor, cell_add(s.cell(), d)),
            pc: s.pc + 1,
            ..s
        }
    } else {
        s.fail(RunError::CursorOutOfRange)
    }
}

/// Storing zero into the cell under the cursor.
pub open spec fn step_set_zero(s: MachineState) -> MachineState {
    if s.cursor_in_range() {
        MachineState { tape: s.tape.update(s.cursor, 0u8), pc: s.pc + 1, ..s }
    } else {
        s.fail(RunError::CursorOutOfRange)
    }
}

/// Writing the cell under the cursor as one raw byte of output.
pub open spec fn step_print(s: MachineState) -> MachineState {
    if s.cursor_in_range() {
        MachineState { output: s.output.push(s.cell()), pc: s.pc + 1, ..s }
    } else {
        s.fail(RunError::CursorOutOfRange)
    }
}

/// Reading exactly one byte of input into the cell under the cursor;
/// exhausted input stops the run.
pub open spec fn step_read(s: MachineState) -> MachineState {
    if !s.cursor_in_range() {
        s.fail(RunError::CursorOutOfRange)
    } else if s.input.len() == 0 {
        s.fail(RunError::InputExhausted)
    } else {
        MachineState {
            tape: s.tape.update(s.cursor, s.input[0]),
            input: s.input.subrange(1, s.input.len() as int),
            pc: s.pc + 1,
            ..s
        }
    }
}

/// Equality of everything observable but the program counter: two states
/// that agree on tape, cursor, unread input, output and failure.
pub open spec fn obs_eq(a: MachineState, b: MachineState) -> bool {
    &&& a.tape == b.tape
    &&& a.cursor == b.cursor
    &&& a.input == b.input
    &&& a.output == b.output
    &&& a.failure == b.failure
}

/// Move fusion is sound: two consecutive cursor moves have the same effect
/// as one move by their sum, whenever both the intermediate and the fused
/// position stay on the tape. (A pair of moves that leaves the tape is
/// where the two differ: the unfused pair stops with the cursor already
/// moved, and a pair that leaves and returns — `d1` off the tape, `d1 + d2`
/// on it — runs on only in fused form.)
pub proof fn lemma_move_fusion(s: MachineState, d1: int, d2: int)
    requires
        s.failure is None,
        step_move(s, d1).failure is None,
        step_move(s, d1 + d2).failure is None,
    ensures
        obs_eq(step_move(step_move(s, d1), d2), step_move(s, d1 + d2)),
{
}

/// Add fusion is sound: two consecutive cell additions have the same effect
/// as one addition of their sum modulo 256, on every state.
pub proof fn lemma_add_fusion(s: MachineState, d1: u8, d2: u8)
    requires
        s.failure is None,
    ensures
        obs_eq(step_add(step_add(s, d1), d2), step_add(s, cell_add(d1, d2))),
{
    if s.cursor_in_range() {
        let t = step_add(s, d1);
        assert(t.cell() == cell_add(s.cell(), d1));
        assert(cell_add(cell_add(s.cell(), d1), d2) == cell_add(s.cell(), cell_add(d1, d2)));
        assert(step_add(t, d2).tape =~= step_add(s, cell_add(d1, d2)).tape);
    }
}

/// The zero-loop idiom's replacement is faithful: one set-cell-to-zero
/// instruction leaves the cell under the cursor at zero and everything else
/// — cursor, the rest of the tape, input and output — unchanged, whatever
/// value the cell held.
pub proof fn lemma_set_to_zero(s: MachineState)
    requires
        s.failure is None,
        s.cursor_in_range(),
    ensures
        step_set_zero(s).failure is None,
        step_set_zero(s).cell() == 0,
        step_set_zero(s).cursor == s.cursor,
        step_set_zero(s).input == s.input,
        step_set_zero(s).output == s.output,
        forall|k: int|
            0 <= k < s.tape.len() && k != s.cursor ==> step_set_zero(s).tape[k] == s.tape[k],
{
}

/// What a bounded run of an interpreter reports: the whole stream was
/// executed, a failure stopped the run, or the step budget ran out with
/// work remaining.
#[derive(Clone, Copy, PartialEq, Eq, Structural, Debug)]
pub enum RunStatus {
    Finished,
    Failed(RunError),
    Exhausted,
}

/// A zero-initialized byte vector, the tape each backend starts from.
pub fn zero_tape(n: usize) -> (v: Vec<u8>)
    ensures
        v@ == Seq::new(n as nat, |i: int| 0u8),
{
    let mut v: Vec<u8> = Vec::new();
    let mut i: usize = 0;
    while i < n
        invariant
            i <= n,
            v@.len() == i,
            forall|k: int| 0 <= k < i ==> v@[k] == 0u8,
        decreases n - i,
    {
        v.push(0);
        i += 1;
    }
    proof {
        assert(v@ =~= Seq::new(n as nat, |i: int| 0u8));
    }
    v
}

} // verus!
