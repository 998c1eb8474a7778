use vstd::prelude::*;
use vstd::pervasive::VecAdditionalExecFns;
use std::collections::HashMap;
use crate::brackets::{balanced, bracket_map_of, bracket_result, lemma_bracket_map_symmetric};
use crate::machine::{
    cell_add, step_add, step_move, step_print, step_read, step_set_zero, zero_tape, MachineState,
    RunError, RunStatus,
};
use crate::optimized_command::OptimizedCommand;
use crate::optimized_program::{roles_of_opt, OptimizedProgram};

verus! {

broadcast use vstd::std_specs::hash::group_hash_axioms;

/// One step of the optimized interpreter: execute the instruction under the
/// program counter and advance it, taking jumps through the precomputed
/// bracket map.
pub open spec fn opt_step(
    prog: Seq<OptimizedCommand>,
    map: Map<usize, usize>,
    s: MachineState,
) -> MachineState
    recommends
        0 <= s.pc < prog.len(),
        s.failure is None,
{
    match prog[s.pc] {
        OptimizedCommand::Move(n) => step_move(s, n as int),
        OptimizedCommand::Add(n) => step_add(s, n),
        OptimizedCommand::SetToZero => step_set_zero(s),
        OptimizedCommand::Print => step_print(s),
        OptimizedCommand::Read => step_read(s),
        OptimizedCommand::JumpForward => if !s.cursor_in_range() {
            s.fail(RunError::CursorOutOfRange)
        } else if s.cell() == 0 {
            if map.contains_key(s.pc as usize) {
                MachineState { pc: map[s.pc as usize] + 1, ..s }
            } else {
                s.fail(RunError::UnmatchedBracket)
            }
        } else {
            MachineState { pc: s.pc + 1, ..s }
        },
        OptimizedCommand::JumpBackwards => if !s.cursor_in_range() {
            s.fail(RunError::CursorOutOfRange)
        } else if s.cell() != 0 {
            if map.contains_key(s.pc as usize) {
                MachineState { pc: map[s.pc as usize] + 1, ..s }
            } else {
                s.fail(RunError::UnmatchedBracket)
            }
        } else {
            MachineState { pc: s.pc + 1, ..s }
        },
    }
}

/// The state after `n` optimized steps, stopping early at a failure or at
/// the end of the stream.
pub open spec fn opt_run_n(
    prog: Seq<OptimizedCommand>,
    map: Map<usize, usize>,
    s: MachineState,
    n: nat,
) -> MachineState
    decreases n,
{
    if n == 0 {
        s
    } else {
        let t = opt_run_n(prog, map, s, (n - 1) as nat);
        if t.failure is Some || !(0 <= t.pc < prog.len()) {
            t
        } else {
            opt_step(prog, map, t)
        }
    }
}

/// Runs compose: stepping `a + b` times is stepping `a` times, then `b`.
pub proof fn lemma_opt_run_n_add(
    prog: Seq<OptimizedCommand>,
    map: Map<usize, usize>,
    s: MachineState,
    a: nat,
    b: nat,
)
    ensures
        opt_run_n(prog, map, s, a + b) == opt_run_n(prog, map, opt_run_n(prog, map, s, a), b),
    decreases b,
{
    if b > 0 {
        lemma_opt_run_n_add(prog, map, s, a, (b - 1) as nat);
    }
}

/// Once a run has failed or left the stream, further steps change nothing.
pub proof fn lemma_opt_run_n_stutter(
    prog: Seq<OptimizedCommand>,
    map: Map<usize, usize>,
    s: MachineState,
    n1: nat,
    n2: nat,
)
    requires
        n1 <= n2,
        opt_run_n(prog, map, s, n1).failure is Some || !(0 <= opt_run_n(prog, map, s, n1).pc
            < prog.len()),
    ensures
        opt_run_n(prog, map, s, n2) == opt_run_n(prog, map, s, n1),
    decreases n2,
{
    if n2 > n1 {
        lemma_opt_run_n_stutter(prog, map, s, n1, (n2 - 1) as nat);
    }
}

/// The bracket-precomputed interpreter: simulates the optimized instruction
/// stream against a tape, jumping in one step through the bracket map built
/// when the interpreter was created.
pub struct OptimizedInterpreter {
    pub program: OptimizedProgram,
    pub data: Vec<u8>,
    pub matching_brackets: HashMap<usize, usize>,
    pub program_ptr: usize,
    pub data_ptr: usize,
    pub input: Vec<u8>,
    pub input_ptr: usize,
    pub output: Vec<u8>,
    pub failure: Option<RunError>,
}

impl View for OptimizedInterpreter {
    type V = MachineState;

    open spec fn view(&self) -> MachineState {
        MachineState {
            tape: self.data@,
            cursor: self.data_ptr as int,
            pc: self.program_ptr as int,
            input: self.input@.subrange(self.input_ptr as int, self.input@.len() as int),
            output: self.output@,
            failure: self.failure,
        }
    }
}

impl OptimizedInterpreter {
    /// The representation invariant: positions rest inside their buffers,
    /// and the stored bracket map is the one the matching pass yields for
    /// this stream.
    pub open spec fn wf(&self) -> bool {
        &&& self.program_ptr <= self.program@.len()
        &&& (self.data@.len() == 0 ==> self.data_ptr == 0)
        &&& (self.data@.len() > 0 ==> self.data_ptr < self.data@.len())
        &&& self.input_ptr <= self.input@.len()
        &&& bracket_result(roles_of_opt(self.program@)) == Ok::<Map<usize, usize>, usize>(
            self.matching_brackets@,
        )
    }

    /// Builds an interpreter over a zeroed tape of `data_size` cells after
    /// matching the stream's brackets.
    ///
    /// # Errors
    ///
    /// If a bracket in the stream is unmatched, returns an error containing
    /// its index, as `bracket_result` describes.
    pub fn new(program: OptimizedProgram, data_size: usize) -> (r: Result<
        OptimizedInterpreter,
        usize,
    >)
        ensures
            match r {
                Ok(interp) => {
                    &&& interp.wf()
                    &&& interp.program@ == program@
                    &&& interp@ == MachineState::init(data_size as nat, Seq::<u8>::empty())
                    &&& balanced(roles_of_opt(program@))
                },
                Err(i) => bracket_result(roles_of_opt(program@)) == Err::<
                    Map<usize, usize>,
                    usize,
                >(i),
            },
    {
        let matching_brackets = match program.find_matching_brackets() {
            Ok(m) => m,
            Err(i) => {
                return Err(i);
            },
        };
        let r = OptimizedInterpreter {
            program,
            data: zero_tape(data_size),
            matching_brackets,
            program_ptr: 0,
            data_ptr: 0,
            input: Vec::new(),
            input_ptr: 0,
            output: Vec::new(),
            failure: None,
        };
        proof {
            assert(r@.input =~= Seq::<u8>::empty());
        }
        Ok(r)
    }

    /// Supplies the bytes that read-into-cell instructions will consume.
    pub fn set_input(&mut self, input: Vec<u8>)
        requires
            old(self).wf(),
        ensures
            final(self).wf(),
            final(self).program@ == old(self).program@,
            final(self)@ == (MachineState { input: input@, ..old(self)@ }),
    {
        self.input = input;
        self.input_ptr = 0;
        proof {
            assert(self@.input =~= self.input@);
        }
    }

    /// The output produced so far.
    pub fn output(&self) -> (r: &Vec<u8>)
        ensures
            r@ == self@.output,
    {
        &self.output
    }

    /// One step of simulation.
    fn step(&mut self)
        requires
            old(self).wf(),
            old(self)@.failure is None,
            0 <= old(self)@.pc < old(self).program@.len(),
        ensures
            final(self).wf(),
            final(self).program == old(self).program,
            final(self).matching_brackets == old(self).matching_brackets,
            final(self)@ == opt_step(
                old(self).program@,
                old(self).matching_brackets@,
                old(self)@,
            ),
    {
        proof {
            assert(self.wf());
        }
        let ghost prog = self.program@;
        let ghost s0 = self@;
        let pc0 = self.program_ptr;
        let n = self.program.commands.len();
        match self.program.commands[pc0] {
            OptimizedCommand::Move(off) => {
                if off >= 0 {
                    let mag = off as usize;
                    if self.data_ptr < self.data.len() && mag < self.data.len() - self.data_ptr {
                        self.data_ptr += mag;
                        self.program_ptr += 1;
                    } else {
                        self.failure = Some(RunError::CursorOutOfRange);
                    }
                } else {
                    let mag = (-(off as i64)) as usize;
                    if mag <= self.data_ptr {
                        self.data_ptr -= mag;
                        self.program_ptr += 1;
                    } else {
                        self.failure = Some(RunError::CursorOutOfRange);
                    }
                }
            },
            OptimizedCommand::Add(v) => {
                if self.data_ptr < self.data.len() {
                    let c = self.data[self.data_ptr];
                    self.data.set(self.data_ptr, c.wrapping_add(v));
                    self.program_ptr += 1;
                    assert(c.wrapping_add(v) == cell_add(c, v));
                } else {
                    self.failure = Some(RunError::CursorOutOfRange);
                }
            },
            OptimizedCommand::SetToZero => {
                if self.data_ptr < self.data.len() {
                    self.data.set(self.data_ptr, 0);
                    self.program_ptr += 1;
                } else {
                    self.failure = Some(RunError::CursorOutOfRange);
                }
            },
            OptimizedCommand::Print => {
                if self.data_ptr < self.data.len() {
                    let v = self.data[self.data_ptr];
                    self.output.push(v);
                    self.program_ptr += 1;
                } else {
                    self.failure = Some(RunError::CursorOutOfRange);
                }
            },
            OptimizedCommand::Read => {
                if self.data_ptr >= self.data.len() {
                    self.failure = Some(RunError::CursorOutOfRange);
                } else if self.input_ptr >= self.input.len() {
                    self.failure = Some(RunError::InputExhausted);
                } else {
                    let b = self.input[self.input_ptr];
                    self.data.set(self.data_ptr, b);
                    self.input_ptr += 1;
                    self.program_ptr += 1;
                    proof {
                        assert(self@.input =~= s0.input.subrange(1, s0.input.len() as int));
                        assert(self@ == step_read(s0));
                    }
                }
            },
            OptimizedCommand::JumpForward => {
                if self.data_ptr >= self.data.len() {
                    self.failure = Some(RunError::CursorOutOfRange);
                } else if self.data[self.data_ptr] == 0 {
                    match self.matching_brackets.get(&self.program_ptr) {
                        Some(t) => {
                            let t = *t;
                            proof {
                                lemma_bracket_map_symmetric(roles_of_opt(prog));
                                assert(roles_of_opt(prog).len() == n);
                                assert(bracket_map_of(roles_of_opt(prog))
                                    == self.matching_brackets@);
                                assert(self.matching_brackets@.contains_key(pc0));
                                assert((t as int) < n);
                            }
                            self.program_ptr = t + 1;
                        },
                        None => {
                            self.failure = Some(RunError::UnmatchedBracket);
                        },
                    }
                } else {
                    self.program_ptr += 1;
                }
            },
            OptimizedCommand::JumpBackwards => {
                if self.data_ptr >= self.data.len() {
                    self.failure = Some(RunError::CursorOutOfRange);
                } else if self.data[self.data_ptr] != 0 {
                    match self.matching_brackets.get(&self.program_ptr) {
                        Some(t) => {
                            let t = *t;
                            proof {
                                lemma_bracket_map_symmetric(roles_of_opt(prog));
                                assert(roles_of_opt(prog).len() == n);
                                assert(bracket_map_of(roles_of_opt(prog))
                                    == self.matching_brackets@);
                                assert(self.matching_brackets@.contains_key(pc0));
                                assert((t as int) < n);
                            }
                            self.program_ptr = t + 1;
                        },
                        None => {
                            self.failure = Some(RunError::UnmatchedBracket);
                        },
                    }
                } else {
                    self.program_ptr += 1;
                }
            },
        }
    }

    /// Runs the simulation for at most `max_steps` instructions. The final
    /// state is exactly `max_steps` optimized steps from the starting state
    /// (steps past the end of a finished or failed run change nothing), and
    /// the status says whether the stream was executed to its end, a failure
    /// stopped the run, or the budget ran out first.
    pub fn run(&mut self, max_steps: usize) -> (r: RunStatus)
        requires
            old(self).wf(),
            old(self)@.failure is None,
        ensures
            final(self).wf(),
            final(self).program@ == old(self).program@,
            final(self)@ == opt_run_n(
                old(self).program@,
                old(self).matching_brackets@,
                old(self)@,
                max_steps as nat,
            ),
            match r {
                RunStatus::Finished => final(self)@.failure is None && final(self)@.pc
                    == final(self).program@.len(),
                RunStatus::Failed(e) => final(self)@.failure == Some(e),
                RunStatus::Exhausted => final(self)@.failure is None && final(self)@.pc
                    < final(self).program@.len(),
            },
    {
        let ghost prog = self.program@;
        let ghost map = self.matching_brackets@;
        let ghost s0 = self@;
        let mut k: usize = 0;
        while k < max_steps
            invariant
                self.wf(),
                self.program@ == prog,
                self.matching_brackets@ == map,
                prog == old(self).program@,
                map == old(self).matching_brackets@,
                s0 == old(self)@,
                k <= max_steps,
                self@ == opt_run_n(prog, map, s0, k as nat),
                self@.failure is None,
            decreases max_steps - k,
        {
            if self.program_ptr >= self.program.commands.len() {
                proof {
                    lemma_opt_run_n_stutter(prog, map, s0, k as nat, max_steps as nat);
                }
                return RunStatus::Finished;
            }
            self.step();
            k += 1;
            if let Some(e) = self.failure {
                proof {
                    lemma_opt_run_n_stutter(prog, map, s0, k as nat, max_steps as nat);
                }
                return RunStatus::Failed(e);
            }
        }
        if self.program_ptr >= self.program.commands.len() {
            RunStatus::Finished
        } else {
            RunStatus::Exhausted
        }
    }
}

} // verus!
