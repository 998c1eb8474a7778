use vstd::prelude::*;
use vstd::pervasive::VecAdditionalExecFns;
use crate::brackets::{
    balanced, bracket_map_of, lemma_bracket_map_symmetric, lemma_open_pending,
    lemma_scan_prefix_ok, scan_height, LoopRole,
};
use crate::command::{role_of_cmd, roles_of_cmd, Command};
use crate::machine::{
    cell_add, step_add, step_move, step_print, step_read, zero_tape, MachineState, RunError,
    RunStatus,
};
use crate::program::Program;

verus! {

/// The index of the loop-close matching a loop-open, found by rescanning:
/// `j` is the next index to examine and `depth` the current nesting. The
/// match is the first index where the depth returns to zero; running off the
/// end means the open is unmatched.
pub open spec fn scan_close(prog: Seq<Command>, j: int, depth: int) -> Option<int>
    decreases prog.len() - j,
{
    if j < 0 || j >= prog.len() {
        None
    } else {
        let d = if prog[j] == Command::JumpForward {
            depth + 1
        } else if prog[j] == Command::JumpBackwards {
            depth - 1
        } else {
            depth
        };
        if d == 0 {
            Some(j)
        } else {
            scan_close(prog, j + 1, d)
        }
    }
}

/// The index of the loop-open matching a loop-close, found by rescanning
/// backwards; running off the front means the close is unmatched.
pub open spec fn scan_open(prog: Seq<Command>, j: int, depth: int) -> Option<int>
    decreases j + 1,
{
    if j < 0 || j >= prog.len() {
        None
    } else {
        let d = if prog[j] == Command::JumpBackwards {
            depth + 1
        } else if prog[j] == Command::JumpForward {
            depth - 1
        } else {
            depth
        };
        if d == 0 {
            Some(j)
        } else {
            scan_open(prog, j - 1, d)
        }
    }
}

/// One step of the naive interpreter: execute the command under the program
/// counter and advance it, jumping over (or back into) loops by rescanning
/// for the matching bracket.
pub open spec fn naive_step(prog: Seq<Command>, s: MachineState) -> MachineState
    recommends
        0 <= s.pc < prog.len(),
        s.failure is None,
{
    match prog[s.pc] {
        Command::MoveRight => step_move(s, 1),
        Command::MoveLeft => step_move(s, -1),
        Command::Increment => step_add(s, 1),
        Command::Decrement => step_add(s, 255),
        Command::Print => step_print(s),
        Command::Read => step_read(s),
        Command::JumpForward => if !s.cursor_in_range() {
            s.fail(RunError::CursorOutOfRange)
        } else if s.cell() == 0 {
            match scan_close(prog, s.pc + 1, 1) {
                Some(j) => MachineState { pc: j + 1, ..s },
                None => s.fail(RunError::UnmatchedBracket),
            }
        } else {
            MachineState { pc: s.pc + 1, ..s }
        },
        Command::JumpBackwards => if !s.cursor_in_range() {
            s.fail(RunError::CursorOutOfRange)
        } else if s.cell() != 0 {
            match scan_open(prog, s.pc - 1, 1) {
                Some(j) => MachineState { pc: j + 1, ..s },
                None => s.fail(RunError::UnmatchedBracket),
            }
        } else {
            MachineState { pc: s.pc + 1, ..s }
        },
    }
}

/// The state after `n` naive steps, stopping early at a failure or at the
/// end of the stream.
pub open spec fn naive_run_n(prog: Seq<Command>, s: MachineState, n: nat) -> MachineState
    decreases n,
{
    if n == 0 {
        s
    } else {
        let t = naive_run_n(prog, s, (n - 1) as nat);
        if t.failure is Some || !(0 <= t.pc < prog.len()) {
            t
        } else {
            naive_step(prog, t)
        }
    }
}

/// Forward rescanning from inside a loop, carried at the depth the pending
/// stack shows, lands exactly on the mapped close.
proof fn lemma_scan_close_finds_match(prog: Seq<Command>, i: int, p: int)
    requires
        prog.len() <= usize::MAX,
        balanced(roles_of_cmd(prog)),
        0 <= i < prog.len(),
        bracket_map_of(roles_of_cmd(prog)).contains_key(i as usize),
        i < bracket_map_of(roles_of_cmd(prog))[i as usize],
        i < p <= bracket_map_of(roles_of_cmd(prog))[i as usize],
    ensures
        scan_close(
            prog,
            p,
            scan_height(roles_of_cmd(prog), p) - scan_height(roles_of_cmd(prog), i),
        ) == Some(bracket_map_of(roles_of_cmd(prog))[i as usize] as int),
    decreases bracket_map_of(roles_of_cmd(prog))[i as usize] - p,
{
    let roles = roles_of_cmd(prog);
    let nn = prog.len() as int;
    let j = bracket_map_of(roles)[i as usize] as int;
    lemma_bracket_map_symmetric(roles);
    assert(j < nn && roles[j] == LoopRole::Close);
    lemma_open_pending(roles, i, p);
    lemma_scan_prefix_ok(roles, p, nn);
    lemma_scan_prefix_ok(roles, p + 1, nn);
    let hi = scan_height(roles, i);
    let d = scan_height(roles, p) - hi;
    assert(d >= 1);
    assert(roles[p] == role_of_cmd(prog[p]));
    if p == j {
        assert(scan_height(roles, p) == hi + 1);
        assert(scan_close(prog, p, d) == Some(j));
    } else {
        lemma_open_pending(roles, i, p + 1);
        assert(scan_height(roles, p + 1) - hi >= 1);
        assert(scan_height(roles, p + 1) == scan_height(roles, p) + (if roles[p]
            == LoopRole::Open {
            1int
        } else if roles[p] == LoopRole::Close {
            -1int
        } else {
            0int
        }));
        lemma_scan_close_finds_match(prog, i, p + 1);
        assert(scan_close(prog, p, d) == scan_close(prog, p + 1, scan_height(roles, p + 1) - hi));
    }
}

/// Backward rescanning from inside a loop, carried at the depth the pending
/// stack shows, lands exactly on the mapped open.
proof fn lemma_scan_open_finds_match(prog: Seq<Command>, i: int, p: int)
    requires
        prog.len() <= usize::MAX,
        balanced(roles_of_cmd(prog)),
        0 <= i < prog.len(),
        bracket_map_of(roles_of_cmd(prog)).contains_key(i as usize),
        i < bracket_map_of(roles_of_cmd(prog))[i as usize],
        i <= p < bracket_map_of(roles_of_cmd(prog))[i as usize],
    ensures
        scan_open(
            prog,
            p,
            scan_height(roles_of_cmd(prog), p + 1) - scan_height(roles_of_cmd(prog), i),
        ) == Some(i),
    decreases p - i,
{
    let roles = roles_of_cmd(prog);
    let nn = prog.len() as int;
    let j = bracket_map_of(roles)[i as usize] as int;
    lemma_bracket_map_symmetric(roles);
    assert(j < nn && roles[i] == LoopRole::Open);
    lemma_open_pending(roles, i, p + 1);
    lemma_scan_prefix_ok(roles, p, nn);
    lemma_scan_prefix_ok(roles, p + 1, nn);
    let hi = scan_height(roles, i);
    let d = scan_height(roles, p + 1) - hi;
    assert(d >= 1);
    assert(roles[p] == role_of_cmd(prog[p]));
    assert(scan_height(roles, p + 1) == scan_height(roles, p) + (if roles[p] == LoopRole::Open {
        1int
    } else if roles[p] == LoopRole::Close {
        -1int
    } else {
        0int
    }));
    if p == i {
        assert(scan_height(roles, p + 1) == hi + 1);
        assert(scan_open(prog, p, d) == Some(i));
    } else {
        lemma_open_pending(roles, i, p);
        assert(scan_height(roles, p) - hi >= 1);
        lemma_scan_open_finds_match(prog, i, p - 1);
        assert(scan_open(prog, p, d) == scan_open(prog, p - 1, scan_height(roles, p) - hi));
    }
}

/// The two jump mechanisms agree: from a loop-open of a balanced stream,
/// the naive interpreter's forward rescan finds exactly the close the
/// bracket map pairs it with, and from that loop-close the backward rescan
/// finds the open again.
pub proof fn lemma_scan_agrees_with_bracket_map(prog: Seq<Command>, i: usize)
    requires
        prog.len() <= usize::MAX,
        balanced(roles_of_cmd(prog)),
        bracket_map_of(roles_of_cmd(prog)).contains_key(i),
        (i as int) < prog.len(),
        prog[i as int] == Command::JumpForward,
    ensures
        scan_close(prog, i + 1, 1) == Some(bracket_map_of(roles_of_cmd(prog))[i] as int),
        scan_open(prog, bracket_map_of(roles_of_cmd(prog))[i] - 1, 1) == Some(i as int),
{
    let roles = roles_of_cmd(prog);
    let nn = prog.len() as int;
    let j = bracket_map_of(roles)[i] as int;
    lemma_bracket_map_symmetric(roles);
    assert(roles[i as int] == LoopRole::Open);
    assert(i < bracket_map_of(roles)[i]);
    lemma_open_pending(roles, i as int, i + 1);
    lemma_scan_prefix_ok(roles, i as int, nn);
    lemma_scan_prefix_ok(roles, i + 1, nn);
    assert(scan_height(roles, i + 1) == scan_height(roles, i as int) + 1);
    lemma_scan_close_finds_match(prog, i as int, i + 1);
    lemma_open_pending(roles, i as int, j);
    assert(scan_height(roles, j) == scan_height(roles, i as int) + 1);
    lemma_scan_open_finds_match(prog, i as int, j - 1);
}

/// Runs compose: stepping `a + b` times is stepping `a` times, then `b`.
pub proof fn lemma_naive_run_n_add(prog: Seq<Command>, s: MachineState, a: nat, b: nat)
    ensures
        naive_run_n(prog, s, a + b) == naive_run_n(prog, naive_run_n(prog, s, a), b),
    decreases b,
{
    if b > 0 {
        lemma_naive_run_n_add(prog, s, a, (b - 1) as nat);
    }
}

/// The body of a clear-cell loop, entered with a non-zero cell: each pass
/// decrements the cell and jumps back until it reaches zero, after which
/// control falls past the loop-close. Two steps per unit of the cell.
proof fn lemma_clear_loop_body(prog: Seq<Command>, pc0: int, u: MachineState)
    requires
        0 <= pc0,
        pc0 + 2 < prog.len(),
        prog[pc0] == Command::JumpForward,
        prog[pc0 + 1] == Command::Decrement,
        prog[pc0 + 2] == Command::JumpBackwards,
        u.failure is None,
        u.cursor_in_range(),
        u.pc == pc0 + 1,
        u.cell() >= 1,
    ensures
        naive_run_n(prog, u, (2 * u.cell()) as nat) == (MachineState {
            tape: u.tape.update(u.cursor, 0),
            pc: pc0 + 3,
            ..u
        }),
    decreases u.cell(),
{
    let w = u.cell();
    let u1 = naive_step(prog, u);
    assert(u1 == step_add(u, 255));
    assert(u1.cell() == (w - 1) as u8);
    let u2 = naive_step(prog, u1);
    assert(scan_open(prog, pc0 + 1, 1) == scan_open(prog, pc0, 0 + 1 - 1 + 1));
    assert(scan_open(prog, pc0, 1) == Some(pc0));
    lemma_naive_run_n_add(prog, u, 2, (2 * w - 2) as nat);
    assert(naive_run_n(prog, u, 0) == u);
    assert(naive_run_n(prog, u, 1) == u1);
    assert(u1.failure is None && u1.pc == pc0 + 2);
    assert(naive_run_n(prog, u, 2) == u2);
    if w == 1 {
        assert(u2.pc == pc0 + 3);
        assert(naive_run_n(prog, u2, 0) == u2);
        assert(u2.tape =~= u.tape.update(u.cursor, 0));
    } else {
        assert(u2.cell() == (w - 1) as u8);
        assert(u2.pc == pc0 + 1);
        lemma_clear_loop_body(prog, pc0, u2);
        assert(u2.tape.update(u2.cursor, 0) =~= u.tape.update(u.cursor, 0));
    }
}

/// The zero-loop idiom in its raw form: a loop-open, a lone decrement and a
/// loop-close, executed by the naive interpreter from any cell value, end
/// with that cell at zero, the cursor unmoved, the rest of the state
/// untouched, and control just past the loop — in one step for a zero cell
/// and `2 * cell + 1` steps otherwise. This is the behavior the optimizer's
/// single set-cell-to-zero instruction replaces.
pub proof fn lemma_clear_loop_runs_to_zero(prog: Seq<Command>, s: MachineState)
    requires
        0 <= s.pc,
        s.pc + 2 < prog.len(),
        prog[s.pc] == Command::JumpForward,
        prog[s.pc + 1] == Command::Decrement,
        prog[s.pc + 2] == Command::JumpBackwards,
        s.failure is None,
        s.cursor_in_range(),
    ensures
        naive_run_n(prog, s, (if s.cell() == 0 {
            1nat
        } else {
            (2 * s.cell() + 1) as nat
        })) == (MachineState { tape: s.tape.update(s.cursor, 0), pc: s.pc + 3, ..s }),
{
    let v = s.cell();
    let s1 = naive_step(prog, s);
    assert(naive_run_n(prog, s, 0) == s);
    assert(naive_run_n(prog, s, 1) == s1);
    if v == 0 {
        assert(scan_close(prog, s.pc + 1, 1) == scan_close(prog, s.pc + 2, 1));
        assert(scan_close(prog, s.pc + 2, 1) == Some(s.pc + 2));
        assert(s1.pc == s.pc + 3);
        assert(s1.tape =~= s.tape.update(s.cursor, 0));
    } else {
        assert(s1.pc == s.pc + 1);
        lemma_naive_run_n_add(prog, s, 1, (2 * v) as nat);
        lemma_clear_loop_body(prog, s.pc, s1);
    }
}

/// Once a run has failed or left the stream, further steps change nothing.
pub proof fn lemma_naive_run_n_stutter(prog: Seq<Command>, s: MachineState, n1: nat, n2: nat)
    requires
        n1 <= n2,
        naive_run_n(prog, s, n1).failure is Some || !(0 <= naive_run_n(prog, s, n1).pc
            < prog.len()),
    ensures
        naive_run_n(prog, s, n2) == naive_run_n(prog, s, n1),
    decreases n2,
{
    if n2 > n1 {
        lemma_naive_run_n_stutter(prog, s, n1, (n2 - 1) as nat);
    }
}

/// The naive tree-walking interpreter: simulates the command stream one
/// command at a time, rescanning for matching brackets on every jump.
pub struct Interpreter {
    pub program: Program,
    pub data: Vec<u8>,
    pub program_ptr: usize,
    pub data_ptr: usize,
    pub input: Vec<u8>,
    pub input_ptr: usize,
    pub output: Vec<u8>,
    pub failure: Option<RunError>,
}

impl View for Interpreter {
    type V = MachineState;

    open spec fn view(&self) -> MachineState {
        MachineState {
            tape: self.data@,
            cursor: self.data_ptr as int,
            pc: self.program_ptr as int,
            input: self.input@.subrange(self.input_ptr as int, self.input@.len() as int),
            output: self.output@,
            failure: self.failure,
        }
    }
}

impl Interpreter {
    /// The representation invariant: the cursor rests on a cell (at zero for
    /// an empty tape), the program counter never passes the end, and the
    /// input position never passes the input's end.
    pub open spec fn wf(&self) -> bool {
        &&& self.program_ptr <= self.program@.len()
        &&& (self.data@.len() == 0 ==> self.data_ptr == 0)
        &&& (self.data@.len() > 0 ==> self.data_ptr < self.data@.len())
        &&& self.input_ptr <= self.input@.len()
    }

    /// A fresh interpreter over a zeroed tape of `data_size` cells, with no
    /// input provided yet.
    pub fn new(program: Program, data_size: usize) -> (r: Interpreter)
        ensures
            r.wf(),
            r.program@ == program@,
            r@ == MachineState::init(data_size as nat, Seq::<u8>::empty()),
    {
        let r = Interpreter {
            program,
            data: zero_tape(data_size),
            program_ptr: 0,
            data_ptr: 0,
            input: Vec::new(),
            input_ptr: 0,
            output: Vec::new(),
            failure: None,
        };
        proof {
            assert(r@.input =~= Seq::<u8>::empty());
        }
        r
    }

    /// Supplies the bytes that read-into-cell commands will consume.
    pub fn set_input(&mut self, input: Vec<u8>)
        requires
            old(self).wf(),
        ensures
            final(self).wf(),
            final(self).program@ == old(self).program@,
            final(self)@ == (MachineState { input: input@, ..old(self)@ }),
    {
        self.input = input;
        self.input_ptr = 0;
        proof {
            assert(self@.input =~= self.input@);
        }
    }

    /// The output produced so far.
    pub fn output(&self) -> (r: &Vec<u8>)
        ensures
            r@ == self@.output,
    {
        &self.output
    }

    /// One step of simulation.
    fn step(&mut self)
        requires
            old(self).wf(),
            old(self)@.failure is None,
            0 <= old(self)@.pc < old(self).program@.len(),
        ensures
            final(self).wf(),
            final(self).program == old(self).program,
            final(self)@ == naive_step(old(self).program@, old(self)@),
    {
        proof {
            assert(self.wf());
        }
        let ghost prog = self.program@;
        let ghost s0 = self@;
        let pc0 = self.program_ptr;
        let n = self.program.commands.len();
        match self.program.commands[pc0] {
            Command::MoveRight => {
                if self.data_ptr < self.data.len() && self.data_ptr + 1 < self.data.len() {
                    self.data_ptr += 1;
                    self.program_ptr += 1;
                } else {
                    self.failure = Some(RunError::CursorOutOfRange);
                }
            },
            Command::MoveLeft => {
                if self.data_ptr > 0 {
                    self.data_ptr -= 1;
                    self.program_ptr += 1;
                } else {
                    self.failure = Some(RunError::CursorOutOfRange);
                }
            },
            Command::Increment => {
                if self.data_ptr < self.data.len() {
                    let v = self.data[self.data_ptr];
                    self.data.set(self.data_ptr, v.wrapping_add(1));
                    self.program_ptr += 1;
                    assert(v.wrapping_add(1) == cell_add(v, 1));
                } else {
                    self.failure = Some(RunError::CursorOutOfRange);
                }
            },
            Command::Decrement => {
                if self.data_ptr < self.data.len() {
                    let v = self.data[self.data_ptr];
                    self.data.set(self.data_ptr, v.wrapping_sub(1));
                    self.program_ptr += 1;
                    assert(v.wrapping_sub(1) == cell_add(v, 255));
                } else {
                    self.failure = Some(RunError::CursorOutOfRange);
                }
            },
            Command::Print => {
                if self.data_ptr < self.data.len() {
                    let v = self.data[self.data_ptr];
                    self.output.push(v);
                    self.program_ptr += 1;
                } else {
                    self.failure = Some(RunError::CursorOutOfRange);
                }
            },
            Command::Read => {
                if self.data_ptr >= self.data.len() {
                    self.failure = Some(RunError::CursorOutOfRange);
                } else if self.input_ptr >= self.input.len() {
                    self.failure = Some(RunError::InputExhausted);
                } else {
                    let b = self.input[self.input_ptr];
                    self.data.set(self.data_ptr, b);
                    self.input_ptr += 1;
                    self.program_ptr += 1;
                    proof {
                        assert(self@.input =~= s0.input.subrange(1, s0.input.len() as int));
                        assert(self@ == step_read(s0));
                    }
                }
            },
            Command::JumpForward => {
                if self.data_ptr >= self.data.len() {
                    self.failure = Some(RunError::CursorOutOfRange);
                } else if self.data[self.data_ptr] == 0 {
                    let mut depth: usize = 1;
                    let mut j: usize = pc0 + 1;
                    let mut found: Option<usize> = None;
                    while found.is_none() && j < n
                        invariant
                            prog == self.program@,
                            n == prog.len(),
                            pc0 + 1 <= j <= n,
                            match found {
                                None => {
                                    &&& 1 <= depth
                                    &&& depth <= j - pc0
                                    &&& scan_close(prog, pc0 + 1, 1) == scan_close(
                                        prog,
                                        j as int,
                                        depth as int,
                                    )
                                },
                                Some(m) => scan_close(prog, pc0 + 1, 1) == Some(m as int) && m < n,
                            },
                        decreases n - j,
                    {
                        match self.program.commands[j] {
                            Command::JumpForward => {
                                depth = depth + 1;
                            },
                            Command::JumpBackwards => {
                                depth = depth - 1;
                            },
                            _ => {},
                        }
                        if depth == 0 {
                            found = Some(j);
                        }
                        j += 1;
                    }
                    match found {
                        Some(m) => {
                            self.program_ptr = m + 1;
                        },
                        None => {
                            self.failure = Some(RunError::UnmatchedBracket);
                        },
                    }
                } else {
                    self.program_ptr += 1;
                }
            },
            Command::JumpBackwards => {
                if self.data_ptr >= self.data.len() {
                    self.failure = Some(RunError::CursorOutOfRange);
                } else if self.data[self.data_ptr] != 0 {
                    let mut depth: usize = 1;
                    let mut j: usize = pc0;
                    let mut found: Option<usize> = None;
                    while found.is_none() && j > 0
                        invariant
                            prog == self.program@,
                            n == prog.len(),
                            pc0 < n,
                            j <= pc0,
                            match found {
                                None => {
                                    &&& 1 <= depth
                                    &&& depth <= pc0 - j + 1
                                    &&& scan_open(prog, pc0 - 1, 1) == scan_open(
                                        prog,
                                        j - 1,
                                        depth as int,
                                    )
                                },
                                Some(m) => scan_open(prog, pc0 - 1, 1) == Some(m as int) && m
                                    < pc0,
                            },
                        decreases j,
                    {
                        match self.program.commands[j - 1] {
                            Command::JumpBackwards => {
                                depth = depth + 1;
                            },
                            Command::JumpForward => {
                                depth = depth - 1;
                            },
                            _ => {},
                        }
                        if depth == 0 {
                            found = Some(j - 1);
                        }
                        j -= 1;
                    }
                    match found {
                        Some(m) => {
                            self.program_ptr = m + 1;
                        },
                        None => {
                            self.failure = Some(RunError::UnmatchedBracket);
                        },
                    }
                } else {
                    self.program_ptr += 1;
                }
            },
        }
    }

    /// Runs the simulation for at most `max_steps` commands. The final
    /// state is exactly `max_steps` naive steps from the starting state
    /// (steps past the end of a finished or failed run change nothing), and
    /// the status says whether the stream was executed to its end, a failure
    /// stopped the run, or the budget ran out first.
    pub fn run(&mut self, max_steps: usize) -> (r: RunStatus)
        requires
            old(self).wf(),
            old(self)@.failure is None,
        ensures
            final(self).wf(),
            final(self).program@ == old(self).program@,
            final(self)@ == naive_run_n(old(self).program@, old(self)@, max_steps as nat),
            match r {
                RunStatus::Finished => final(self)@.failure is None && final(self)@.pc
                    == final(self).program@.len(),
                RunStatus::Failed(e) => final(self)@.failure == Some(e),
                RunStatus::Exhausted => final(self)@.failure is None && final(self)@.pc
                    < final(self).program@.len(),
            },
    {
        let ghost prog = self.program@;
        let ghost s0 = self@;
        let mut k: usize = 0;
        while k < max_steps
            invariant
                self.wf(),
                self.program@ == prog,
                prog == old(self).program@,
                s0 == old(self)@,
                k <= max_steps,
                self@ == naive_run_n(prog, s0, k as nat),
                self@.failure is None,
            decreases max_steps - k,
        {
            if self.program_ptr >= self.program.commands.len() {
                proof {
                    lemma_naive_run_n_stutter(prog, s0, k as nat, max_steps as nat);
                }
                return RunStatus::Finished;
            }
            self.step();
            k += 1;
            if let Some(e) = self.failure {
                proof {
                    lemma_naive_run_n_stutter(prog, s0, k as nat, max_steps as nat);
                }
                return RunStatus::Failed(e);
            }
        }
        if self.program_ptr >= self.program.commands.len() {
            RunStatus::Finished
        } else {
            RunStatus::Exhausted
        }
    }
}

} // verus!
