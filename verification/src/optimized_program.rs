use vstd::prelude::*;
use std::collections::HashMap;
use crate::brackets::{
    balanced, bracket_result, bracket_scan, lemma_scan_err_persists, lemma_scan_same_prefix,
    match_brackets, LoopRole,
};
use crate::command::{role_of_cmd, roles_of_cmd, Command};
use crate::optimized_command::{opt_of_cmd, OptimizedCommand};
use crate::program::Program;

verus! {

/// Pointer-move fusion adds one to the pending signed offset, wrapping as
/// the 32-bit payload does.
pub open spec fn fuse_inc_i32(o: i32) -> i32 {
    if o == i32::MAX {
        i32::MIN
    } else {
        (o + 1) as i32
    }
}

/// Pointer-move fusion subtracts one from the pending signed offset.
pub open spec fn fuse_dec_i32(o: i32) -> i32 {
    if o == i32::MIN {
        i32::MAX
    } else {
        (o - 1) as i32
    }
}

/// Cell-arithmetic fusion adds one to the pending delta, modulo 256.
pub open spec fn fuse_inc_u8(v: u8) -> u8 {
    if v == 255 {
        0
    } else {
        (v + 1) as u8
    }
}

/// Cell-arithmetic fusion subtracts one from the pending delta, modulo 256.
pub open spec fn fuse_dec_u8(v: u8) -> u8 {
    if v == 0 {
        255
    } else {
        (v - 1) as u8
    }
}

/// The generic fusion rule: what the last emitted instruction becomes when
/// the next primitive command folds into it, or `None` when no fusion
/// applies and the command is emitted on its own.
pub open spec fn fuse(last: OptimizedCommand, cur: Command) -> Option<OptimizedCommand> {
    match (last, cur) {
        (OptimizedCommand::Move(o), Command::MoveRight) => Some(
            OptimizedCommand::Move(fuse_inc_i32(o)),
        ),
        (OptimizedCommand::Move(o), Command::MoveLeft) => Some(
            OptimizedCommand::Move(fuse_dec_i32(o)),
        ),
        (OptimizedCommand::Add(v), Command::Increment) => Some(
            OptimizedCommand::Add(fuse_inc_u8(v)),
        ),
        (OptimizedCommand::Add(v), Command::Decrement) => Some(
            OptimizedCommand::Add(fuse_dec_u8(v)),
        ),
        _ => None,
    }
}

/// The greedy left-to-right peephole pass, from command index `i` on, with
/// `acc` the instructions emitted so far. The clear-cell idiom is recognized
/// before the generic decrement fusion, so a loop-open followed by a lone
/// decrement and a loop-close collapses into one set-cell-to-zero
/// instruction; otherwise a move or arithmetic command folds into a pending
/// instruction of its kind, and anything else is emitted verbatim.
pub open spec fn optimize_from(
    cmds: Seq<Command>,
    i: int,
    acc: Seq<OptimizedCommand>,
) -> Seq<OptimizedCommand>
    decreases cmds.len() - i,
{
    if i < 0 || i >= cmds.len() {
        acc
    } else {
        let cur = cmds[i];
        if acc.len() > 0 && acc.last() == OptimizedCommand::JumpForward && cur
            == Command::Decrement && i + 1 < cmds.len() && cmds[i + 1] == Command::JumpBackwards {
            optimize_from(cmds, i + 2, acc.drop_last().push(OptimizedCommand::SetToZero))
        } else if acc.len() > 0 && fuse(acc.last(), cur) is Some {
            optimize_from(cmds, i + 1, acc.drop_last().push(fuse(acc.last(), cur).unwrap()))
        } else {
            optimize_from(cmds, i + 1, acc.push(opt_of_cmd(cur)))
        }
    }
}

/// The optimized stream a command stream rewrites to.
pub open spec fn optimize_spec(cmds: Seq<Command>) -> Seq<OptimizedCommand> {
    optimize_from(cmds, 0, Seq::empty())
}

/// The loop role of one optimized instruction.
pub open spec fn role_of_opt(c: OptimizedCommand) -> LoopRole {
    match c {
        OptimizedCommand::JumpForward => LoopRole::Open,
        OptimizedCommand::JumpBackwards => LoopRole::Close,
        _ => LoopRole::Other,
    }
}

/// The loop roles of a whole optimized stream.
pub open spec fn roles_of_opt(cmds: Seq<OptimizedCommand>) -> Seq<LoopRole> {
    cmds.map_values(|c: OptimizedCommand| role_of_opt(c))
}

/// The scan of the commands consumed so far and the scan of the
/// instructions emitted so far stand or fall together, with pending stacks
/// of equal height.
pub open spec fn heights_agree(rin: Seq<LoopRole>, i: int, rout: Seq<LoopRole>) -> bool {
    match (bracket_scan(rin, i), bracket_scan(rout, rout.len() as int)) {
        (Ok((m1, st1)), Ok((m2, st2))) => st1.len() == st2.len(),
        (Err(e1), Err(e2)) => true,
        _ => false,
    }
}

/// Each rewrite of the peephole pass keeps the scans in step: fusion never
/// touches a bracket, a verbatim instruction carries its command's own
/// role, and the clear-cell idiom removes a whole matched pair — the open
/// last emitted together with the close looked ahead to.
#[verifier::rlimit(100)]
#[verifier::spinoff_prover]
proof fn lemma_optimize_from_balance(cmds: Seq<Command>, i: int, acc: Seq<OptimizedCommand>)
    requires
        0 <= i <= cmds.len(),
        heights_agree(roles_of_cmd(cmds), i, roles_of_opt(acc)),
    ensures
        heights_agree(
            roles_of_cmd(cmds),
            cmds.len() as int,
            roles_of_opt(optimize_from(cmds, i, acc)),
        ),
    decreases cmds.len() - i,
{
    let rin = roles_of_cmd(cmds);
    if i == cmds.len() {
    } else {
        let cur = cmds[i];
        let rout = roles_of_opt(acc);
        let na = acc.len() as int;
        assert(rin[i] == role_of_cmd(cur));
        if acc.len() > 0 && acc.last() == OptimizedCommand::JumpForward && cur
            == Command::Decrement && i + 1 < cmds.len() && cmds[i + 1] == Command::JumpBackwards {
            let acc2 = acc.drop_last().push(OptimizedCommand::SetToZero);
            let rout2 = roles_of_opt(acc2);
            assert(rout[na - 1] == LoopRole::Open);
            assert(rin[i] == LoopRole::Other && rin[i + 1] == LoopRole::Close);
            assert(forall|p: int| 0 <= p < na - 1 ==> rout2[p] == rout[p]);
            lemma_scan_same_prefix(rout2, rout, na - 1);
            assert(rout2[na - 1] == LoopRole::Other);
            match bracket_scan(rout, na) {
                Ok((m2, st2)) => {
                    assert(bracket_scan(rout, na - 1) is Ok);
                    assert(st2.len() >= 1);
                    assert(match bracket_scan(rout2, na) {
                        Ok((m3, st3)) => st3.len() == st2.len() - 1,
                        Err(_) => false,
                    });
                    assert(match bracket_scan(rin, i + 2) {
                        Ok((m4, st4)) => st4.len() == st2.len() - 1,
                        Err(_) => false,
                    });
                },
                Err(e) => {
                    // the error lies strictly before the open last emitted
                    assert(bracket_scan(rout, na - 1) is Err);
                    assert(bracket_scan(rout2, na) is Err);
                    lemma_scan_err_persists(rin, i, i + 2);
                },
            }
            assert(heights_agree(rin, i + 2, rout2));
            lemma_optimize_from_balance(cmds, i + 2, acc2);
        } else if acc.len() > 0 && fuse(acc.last(), cur) is Some {
            let acc2 = acc.drop_last().push(fuse(acc.last(), cur).unwrap());
            let rout2 = roles_of_opt(acc2);
            assert(role_of_opt(acc.last()) == LoopRole::Other);
            assert(role_of_opt(fuse(acc.last(), cur).unwrap()) == LoopRole::Other);
            assert(rout2 =~= rout);
            assert(rin[i] == LoopRole::Other);
            match bracket_scan(rin, i) {
                Ok(_) => {},
                Err(_) => {},
            }
            assert(heights_agree(rin, i + 1, rout2));
            lemma_optimize_from_balance(cmds, i + 1, acc2);
        } else {
            let acc2 = acc.push(opt_of_cmd(cur));
            let rout2 = roles_of_opt(acc2);
            assert(role_of_opt(opt_of_cmd(cur)) == role_of_cmd(cur));
            assert(forall|p: int| 0 <= p < na ==> rout2[p] == rout[p]);
            assert(rout2[na] == role_of_cmd(cur));
            lemma_scan_same_prefix(rout2, rout, na);
            match bracket_scan(rout, na) {
                Ok((m2, st2)) => {},
                Err(_) => {},
            }
            assert(heights_agree(rin, i + 1, rout2));
            lemma_optimize_from_balance(cmds, i + 1, acc2);
        }
    }
}

/// The peephole pass preserves bracket balance: the optimized stream is
/// balanced exactly when the command stream it was rewritten from is, so
/// validating either stream validates the program.
pub proof fn lemma_optimize_preserves_balance(cmds: Seq<Command>)
    ensures
        balanced(roles_of_cmd(cmds)) <==> balanced(roles_of_opt(optimize_spec(cmds))),
{
    let rin = roles_of_cmd(cmds);
    assert(roles_of_opt(Seq::<OptimizedCommand>::empty()).len() == 0);
    assert(heights_agree(rin, 0, roles_of_opt(Seq::<OptimizedCommand>::empty())));
    lemma_optimize_from_balance(cmds, 0, Seq::empty());
    let rout = roles_of_opt(optimize_spec(cmds));
    assert(rin.len() == cmds.len());
    match (bracket_scan(rin, rin.len() as int), bracket_scan(rout, rout.len() as int)) {
        (Ok((m1, st1)), Ok((m2, st2))) => {
            assert(st1.len() == st2.len());
        },
        _ => {},
    }
}

/// An ordered, immutable stream of optimized instructions, produced from a
/// command stream by the peephole pass.
pub struct OptimizedProgram {
    pub commands: Vec<OptimizedCommand>,
}

impl View for OptimizedProgram {
    type V = Seq<OptimizedCommand>;

    open spec fn view(&self) -> Seq<OptimizedCommand> {
        self.commands@
    }
}

impl OptimizedProgram {
    /// Rewrites a command stream into the optimized instruction stream, by
    /// the greedy peephole rules of `optimize_from`.
    pub fn from(program: &Program) -> (r: OptimizedProgram)
        ensures
            r@ == optimize_spec(program@),
    {
        let cmds = &program.commands;
        let n = cmds.len();
        let mut out: Vec<OptimizedCommand> = Vec::new();
        let mut i: usize = 0;
        while i < n
            invariant
                i <= n,
                n == cmds@.len(),
                optimize_from(cmds@, i as int, out@) == optimize_spec(cmds@),
            decreases n - i,
        {
            let ghost prev_out = out@;
            let cur = cmds[i];
            if out.len() > 0 && out[out.len() - 1] == OptimizedCommand::JumpForward && cur
                == Command::Decrement && i + 1 < n && cmds[i + 1] == Command::JumpBackwards {
                out.pop();
                out.push(OptimizedCommand::SetToZero);
                proof {
                    assert(out@ =~= prev_out.drop_last().push(OptimizedCommand::SetToZero));
                }
                i += 2;
            } else {
                let mut fused = false;
                if out.len() > 0 {
                    let last = out[out.len() - 1];
                    match (last, cur) {
                        (OptimizedCommand::Move(o), Command::MoveRight) => {
                            out.pop();
                            out.push(OptimizedCommand::Move(o.wrapping_add(1)));
                            fused = true;
                            assert(o.wrapping_add(1) == fuse_inc_i32(o));
                        },
                        (OptimizedCommand::Move(o), Command::MoveLeft) => {
                            out.pop();
                            out.push(OptimizedCommand::Move(o.wrapping_sub(1)));
                            fused = true;
                            assert(o.wrapping_sub(1) == fuse_dec_i32(o));
                        },
                        (OptimizedCommand::Add(v), Command::Increment) => {
                            out.pop();
                            out.push(OptimizedCommand::Add(v.wrapping_add(1)));
                            fused = true;
                            assert(v.wrapping_add(1) == fuse_inc_u8(v));
                        },
                        (OptimizedCommand::Add(v), Command::Decrement) => {
                            out.pop();
                            out.push(OptimizedCommand::Add(v.wrapping_sub(1)));
                            fused = true;
                            assert(v.wrapping_sub(1) == fuse_dec_u8(v));
                        },
                        _ => {},
                    }
                }
                if fused {
                    proof {
                        assert(fuse(prev_out.last(), cur) is Some);
                        assert(out@ =~= prev_out.drop_last().push(
                            fuse(prev_out.last(), cur).unwrap(),
                        ));
                    }
                } else {
                    out.push(OptimizedCommand::from(&cur));
                    proof {
                        assert(out@ =~= prev_out.push(opt_of_cmd(cur)));
                    }
                }
                i += 1;
            }
        }
        OptimizedProgram { commands: out }
    }

    /// The number of instructions in the stream.
    pub fn len(&self) -> (r: usize)
        ensures
            r == self@.len(),
    {
        self.commands.len()
    }

    /// Maps the index of every loop-open or loop-close instruction to the
    /// index of its matching bracket, in one pass over the stream.
    ///
    /// # Errors
    ///
    /// If a bracket is unmatched, returns an error containing its index: the
    /// index of a close with no open pending, or of the earliest open still
    /// pending after the pass.
    pub fn find_matching_brackets(&self) -> (r: Result<HashMap<usize, usize>, usize>)
        ensures
            match r {
                Ok(m) => bracket_result(roles_of_opt(self@)) == Ok::<Map<usize, usize>, usize>(m@),
                Err(e) => bracket_result(roles_of_opt(self@)) == Err::<Map<usize, usize>, usize>(e),
            },
    {
        let n = self.commands.len();
        let mut roles: Vec<LoopRole> = Vec::new();
        let mut i: usize = 0;
        while i < n
            invariant
                i <= n,
                n == self@.len(),
                roles@.len() == i,
                forall|k: int| 0 <= k < i ==> roles@[k] == role_of_opt(self@[k]),
            decreases n - i,
        {
            let role = match self.commands[i] {
                OptimizedCommand::JumpForward => LoopRole::Open,
                OptimizedCommand::JumpBackwards => LoopRole::Close,
                _ => LoopRole::Other,
            };
            roles.push(role);
            i += 1;
        }
        proof {
            assert(roles@ =~= roles_of_opt(self@));
        }
        match_brackets(&roles)
    }
}

} // verus!
