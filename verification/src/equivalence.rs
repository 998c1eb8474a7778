use vstd::prelude::*;
use crate::command::{roles_of_cmd, Command};
use crate::machine::{
    lemma_add_fusion, lemma_move_fusion, obs_eq, step_add, step_move, step_print, step_read,
    step_set_zero, MachineState,
};
use crate::optimized_command::{opt_of_cmd, OptimizedCommand};
use crate::optimized_program::{
    fuse, fuse_dec_i32, fuse_inc_i32, optimize_from, optimize_spec, roles_of_opt,
};
use crate::brackets::{balanced, bracket_map_of, lemma_bracket_map_symmetric, LoopRole};
use crate::interpreter::{
    lemma_naive_run_n_add, lemma_naive_run_n_stutter, lemma_scan_agrees_with_bracket_map,
    naive_run_n, naive_step, scan_close, scan_open,
};
use crate::optimized_interpreter::{lemma_opt_run_n_add, lemma_opt_run_n_stutter, opt_run_n, opt_step};

verus! {

/// Whether a primitive command is a loop bracket.
pub open spec fn is_loop_cmd(c: Command) -> bool {
    c == Command::JumpForward || c == Command::JumpBackwards
}

/// A straight-line command stream: one without loop brackets. Such a stream
/// executes strictly left to right, one command after the other, under
/// every backend.
pub open spec fn loop_free(cmds: Seq<Command>) -> bool {
    forall|k: int| 0 <= k < cmds.len() ==> !is_loop_cmd(#[trigger] cmds[k])
}

/// A straight-line optimized stream.
pub open spec fn loop_free_opt(p: Seq<OptimizedCommand>) -> bool {
    forall|k: int|
        0 <= k < p.len() ==> #[trigger] p[k] != OptimizedCommand::JumpForward && p[k]
            != OptimizedCommand::JumpBackwards
}

/// The effect of one primitive command of a straight-line stream.
pub open spec fn flat_cmd_step(c: Command, s: MachineState) -> MachineState {
    match c {
        Command::MoveRight => step_move(s, 1),
        Command::MoveLeft => step_move(s, -1),
        Command::Increment => step_add(s, 1),
        Command::Decrement => step_add(s, 255),
        Command::Print => step_print(s),
        Command::Read => step_read(s),
        Command::JumpForward => s,
        Command::JumpBackwards => s,
    }
}

/// The effect of one optimized instruction of a straight-line stream.
pub open spec fn flat_opt_step(c: OptimizedCommand, s: MachineState) -> MachineState {
    match c {
        OptimizedCommand::Move(n) => step_move(s, n as int),
        OptimizedCommand::Add(n) => step_add(s, n),
        OptimizedCommand::SetToZero => step_set_zero(s),
        OptimizedCommand::Print => step_print(s),
        OptimizedCommand::Read => step_read(s),
        OptimizedCommand::JumpForward => s,
        OptimizedCommand::JumpBackwards => s,
    }
}

/// Running a straight-line command stream in order, stopping at a failure.
pub open spec fn run_flat_cmds(cmds: Seq<Command>, s: MachineState) -> MachineState
    decreases cmds.len(),
{
    if cmds.len() == 0 || s.failure is Some {
        s
    } else {
        run_flat_cmds(cmds.subrange(1, cmds.len() as int), flat_cmd_step(cmds[0], s))
    }
}

/// Running a straight-line optimized stream in order, stopping at a failure.
pub open spec fn run_flat_opt(p: Seq<OptimizedCommand>, s: MachineState) -> MachineState
    decreases p.len(),
{
    if p.len() == 0 || s.failure is Some {
        s
    } else {
        run_flat_opt(p.subrange(1, p.len() as int), flat_opt_step(p[0], s))
    }
}

/// A run decomposes at its last instruction.
proof fn lemma_run_flat_opt_push(p: Seq<OptimizedCommand>, x: OptimizedCommand, s: MachineState)
    ensures
        run_flat_opt(p.push(x), s) == (if run_flat_opt(p, s).failure is Some {
            run_flat_opt(p, s)
        } else {
            flat_opt_step(x, run_flat_opt(p, s))
        }),
    decreases p.len(),
{
    if p.len() == 0 || s.failure is Some {
        if s.failure is Some {
            assert(run_flat_opt(p.push(x), s) == s);
        } else {
            assert(p.push(x)[0] == x);
            assert(p.push(x).subrange(1, p.push(x).len() as int) =~= Seq::<
                OptimizedCommand,
            >::empty());
            assert(run_flat_opt(Seq::<OptimizedCommand>::empty(), flat_opt_step(x, s))
                == flat_opt_step(x, s));
            assert(run_flat_opt(p, s) == s);
        }
    } else {
        assert(p.push(x)[0] == p[0]);
        assert(p.push(x).subrange(1, p.push(x).len() as int) =~= p.subrange(
            1,
            p.len() as int,
        ).push(x));
        assert(run_flat_opt(p.push(x), s) == run_flat_opt(
            p.subrange(1, p.len() as int).push(x),
            flat_opt_step(p[0], s),
        ));
        assert(run_flat_opt(p, s) == run_flat_opt(
            p.subrange(1, p.len() as int),
            flat_opt_step(p[0], s),
        ));
        lemma_run_flat_opt_push(p.subrange(1, p.len() as int), x, flat_opt_step(p[0], s));
    }
}

/// Runs started from observably equal states stay observably equal: no step
/// of a straight-line stream reads the program counter.
proof fn lemma_run_flat_cmds_congruent(cmds: Seq<Command>, s: MachineState, t: MachineState)
    requires
        obs_eq(s, t),
    ensures
        obs_eq(run_flat_cmds(cmds, s), run_flat_cmds(cmds, t)),
    decreases cmds.len(),
{
    if cmds.len() == 0 || s.failure is Some {
    } else {
        assert(obs_eq(flat_cmd_step(cmds[0], s), flat_cmd_step(cmds[0], t)));
        lemma_run_flat_cmds_congruent(
            cmds.subrange(1, cmds.len() as int),
            flat_cmd_step(cmds[0], s),
            flat_cmd_step(cmds[0], t),
        );
    }
}

/// The heart of the optimizer-equivalence argument, stated compositionally
/// over the greedy pass: running what the pass makes of the rest of the
/// stream, on top of the instructions already emitted, is observably the
/// same as running the remaining primitive commands after those
/// instructions — provided the primitive run does not stop in a failure
/// (fusion can only widen where a run survives: a pair of moves that steps
/// off the tape and back is rescued by its fused form), and the stream is
/// short enough that no fused move offset can wrap its 32-bit payload.
#[verifier::rlimit(100)]
#[verifier::spinoff_prover]
proof fn lemma_optimize_from_equiv(
    cmds: Seq<Command>,
    i: int,
    acc: Seq<OptimizedCommand>,
    s: MachineState,
)
    requires
        0 <= i <= cmds.len(),
        cmds.len() <= 0x4000_0000,
        loop_free(cmds),
        loop_free_opt(acc),
        acc.len() > 0 ==> (match acc.last() {
            OptimizedCommand::Move(o) => i32::MIN + (cmds.len() - i) <= o <= i32::MAX - (
            cmds.len() - i),
            _ => true,
        }),
        run_flat_cmds(cmds.subrange(i, cmds.len() as int), run_flat_opt(acc, s)).failure is None,
    ensures
        obs_eq(
            run_flat_opt(optimize_from(cmds, i, acc), s),
            run_flat_cmds(cmds.subrange(i, cmds.len() as int), run_flat_opt(acc, s)),
        ),
    decreases cmds.len() - i,
{
    let nn = cmds.len() as int;
    let rest = cmds.subrange(i, nn);
    let aa = run_flat_opt(acc, s);
    if i == nn {
        assert(rest.len() == 0);
    } else {
        let cur = cmds[i];
        assert(!is_loop_cmd(cur));
        let rest1 = cmds.subrange(i + 1, nn);
        assert(rest[0] == cur);
        assert(rest.subrange(1, rest.len() as int) =~= rest1);
        assert(aa.failure is None);
        let stepped = flat_cmd_step(cur, aa);
        assert(run_flat_cmds(rest, aa) == run_flat_cmds(rest1, stepped));
        assert(stepped.failure is None) by {
            if stepped.failure is Some {
                assert(run_flat_cmds(rest1, stepped) == stepped);
            }
        }
        // the clear-cell idiom needs a loop-close lookahead, which a
        // straight-line stream cannot offer
        assert(!(i + 1 < nn && cmds[i + 1] == Command::JumpBackwards));
        if acc.len() > 0 && fuse(acc.last(), cur) is Some {
            let last = acc.last();
            let f = fuse(last, cur).unwrap();
            let acc2 = acc.drop_last().push(f);
            assert(acc =~= acc.drop_last().push(last));
            lemma_run_flat_opt_push(acc.drop_last(), last, s);
            lemma_run_flat_opt_push(acc.drop_last(), f, s);
            let b = run_flat_opt(acc.drop_last(), s);
            assert(b.failure is None);
            assert(aa == flat_opt_step(last, b));
            let fused = flat_opt_step(f, b);
            assert(obs_eq(fused, stepped)) by {
                match (last, cur) {
                    (OptimizedCommand::Move(o), Command::MoveRight) => {
                        assert(f == OptimizedCommand::Move(fuse_inc_i32(o)));
                        assert(fuse_inc_i32(o) == o + 1);
                        lemma_move_fusion(b, o as int, 1);
                    },
                    (OptimizedCommand::Move(o), Command::MoveLeft) => {
                        assert(f == OptimizedCommand::Move(fuse_dec_i32(o)));
                        assert(fuse_dec_i32(o) == o - 1);
                        lemma_move_fusion(b, o as int, -1);
                    },
                    (OptimizedCommand::Add(v), Command::Increment) => {
                        lemma_add_fusion(b, v, 1);
                    },
                    (OptimizedCommand::Add(v), Command::Decrement) => {
                        lemma_add_fusion(b, v, 255);
                    },
                    _ => {
                        assert(false);
                    },
                }
            }
            assert(run_flat_opt(acc2, s) == fused);
            assert(loop_free_opt(acc2)) by {
                assert forall|k: int| 0 <= k < acc2.len() implies #[trigger] acc2[k]
                    != OptimizedCommand::JumpForward && acc2[k] != OptimizedCommand::JumpBackwards
                    by {
                    if k < acc.len() - 1 {
                        assert(acc2[k] == acc[k]);
                    }
                }
            }
            lemma_run_flat_cmds_congruent(rest1, fused, stepped);
            assert(run_flat_cmds(rest1, run_flat_opt(acc2, s)).failure is None);
            lemma_optimize_from_equiv(cmds, i + 1, acc2, s);
            assert(optimize_from(cmds, i, acc) == optimize_from(cmds, i + 1, acc2));
            lemma_run_flat_cmds_congruent(rest1, run_flat_opt(acc2, s), stepped);
        } else {
            let c2 = opt_of_cmd(cur);
            let acc2 = acc.push(c2);
            lemma_run_flat_opt_push(acc, c2, s);
            assert(run_flat_opt(acc2, s) == flat_opt_step(c2, aa));
            assert(obs_eq(flat_opt_step(c2, aa), stepped));
            assert(loop_free_opt(acc2)) by {
                assert forall|k: int| 0 <= k < acc2.len() implies #[trigger] acc2[k]
                    != OptimizedCommand::JumpForward && acc2[k] != OptimizedCommand::JumpBackwards
                    by {
                    if k < acc.len() {
                        assert(acc2[k] == acc[k]);
                    }
                }
            }
            lemma_run_flat_cmds_congruent(rest1, run_flat_opt(acc2, s), stepped);
            assert(run_flat_cmds(rest1, run_flat_opt(acc2, s)).failure is None);
            lemma_optimize_from_equiv(cmds, i + 1, acc2, s);
            assert(optimize_from(cmds, i, acc) == optimize_from(cmds, i + 1, acc2));
        }
    }
}

/// The verbatim translation: each primitive command as its single
/// optimized instruction, with no fusion — the stream a backend runs when
/// optimization is switched off.
pub open spec fn verbatim_translation(cmds: Seq<Command>) -> Seq<OptimizedCommand> {
    cmds.map_values(|c: Command| opt_of_cmd(c))
}

/// The verbatim translation keeps every loop role in place, so the same
/// bracket map serves both streams.
pub proof fn lemma_verbatim_roles(cmds: Seq<Command>)
    ensures
        roles_of_opt(verbatim_translation(cmds)) == roles_of_cmd(cmds),
{
    assert(roles_of_opt(verbatim_translation(cmds)) =~= roles_of_cmd(cmds));
}

/// On the verbatim translation of a balanced stream, one step of the
/// bracket-precomputed interpreter is one step of the naive interpreter:
/// rescanning and the bracket map take every jump to the same place.
proof fn lemma_verbatim_step_agrees(cmds: Seq<Command>, s: MachineState)
    requires
        cmds.len() <= usize::MAX,
        balanced(roles_of_cmd(cmds)),
        0 <= s.pc < cmds.len(),
        s.failure is None,
    ensures
        opt_step(
            verbatim_translation(cmds),
            bracket_map_of(roles_of_cmd(cmds)),
            s,
        ) == naive_step(cmds, s),
{
    let roles = roles_of_cmd(cmds);
    let m = bracket_map_of(roles);
    let trans = verbatim_translation(cmds);
    let pc = s.pc;
    assert(trans[pc] == opt_of_cmd(cmds[pc]));
    lemma_bracket_map_symmetric(roles);
    match cmds[pc] {
        Command::JumpForward => {
            assert(roles[pc] == LoopRole::Open);
            assert(m.contains_key(pc as usize));
            if s.cursor_in_range() && s.cell() == 0 {
                lemma_scan_agrees_with_bracket_map(cmds, pc as usize);
                assert(scan_close(cmds, pc + 1, 1) == Some(m[pc as usize] as int));
            }
        },
        Command::JumpBackwards => {
            assert(roles[pc] == LoopRole::Close);
            assert(m.contains_key(pc as usize));
            if s.cursor_in_range() && s.cell() != 0 {
                let i = m[pc as usize];
                assert(m.contains_key(i) && m[i] == pc as usize && (i as int) < pc);
                assert(roles[i as int] == LoopRole::Open);
                assert(cmds[i as int] == Command::JumpForward);
                lemma_scan_agrees_with_bracket_map(cmds, i);
                assert(scan_open(cmds, pc - 1, 1) == Some(i as int));
            }
        },
        _ => {},
    }
}

/// The two interpreters agree on the verbatim translation of a balanced
/// stream: simulating it with the precomputed bracket map, for any number
/// of steps, reaches exactly the state the naive rescanning interpreter
/// reaches on the raw commands.
pub proof fn lemma_interpreters_agree_verbatim(cmds: Seq<Command>, s: MachineState, n: nat)
    requires
        cmds.len() <= usize::MAX,
        balanced(roles_of_cmd(cmds)),
    ensures
        opt_run_n(
            verbatim_translation(cmds),
            bracket_map_of(roles_of_cmd(cmds)),
            s,
            n,
        ) == naive_run_n(cmds, s, n),
    decreases n,
{
    let trans = verbatim_translation(cmds);
    let m = bracket_map_of(roles_of_cmd(cmds));
    assert(trans.len() == cmds.len());
    if n > 0 {
        lemma_interpreters_agree_verbatim(cmds, s, (n - 1) as nat);
        let t = naive_run_n(cmds, s, (n - 1) as nat);
        if t.failure is None && 0 <= t.pc < cmds.len() {
            lemma_verbatim_step_agrees(cmds, t);
        }
    }
}

/// The peephole pass emits no loop instructions for a loop-free stream.
proof fn lemma_optimize_loop_free(cmds: Seq<Command>, i: int, acc: Seq<OptimizedCommand>)
    requires
        0 <= i,
        loop_free(cmds),
        loop_free_opt(acc),
    ensures
        loop_free_opt(optimize_from(cmds, i, acc)),
    decreases cmds.len() - i,
{
    if i >= cmds.len() {
    } else {
        let cur = cmds[i];
        assert(!is_loop_cmd(cur));
        assert(!(i + 1 < cmds.len() && cmds[i + 1] == Command::JumpBackwards));
        if acc.len() > 0 && fuse(acc.last(), cur) is Some {
            let f = fuse(acc.last(), cur).unwrap();
            let acc2 = acc.drop_last().push(f);
            assert forall|k: int| 0 <= k < acc2.len() implies #[trigger] acc2[k]
                != OptimizedCommand::JumpForward && acc2[k] != OptimizedCommand::JumpBackwards by {
                if k < acc.len() - 1 {
                    assert(acc2[k] == acc[k]);
                }
            }
            lemma_optimize_loop_free(cmds, i + 1, acc2);
        } else {
            let acc2 = acc.push(opt_of_cmd(cur));
            assert forall|k: int| 0 <= k < acc2.len() implies #[trigger] acc2[k]
                != OptimizedCommand::JumpForward && acc2[k] != OptimizedCommand::JumpBackwards by {
                if k < acc.len() {
                    assert(acc2[k] == acc[k]);
                }
            }
            lemma_optimize_loop_free(cmds, i + 1, acc2);
        }
    }
}

/// On a straight-line stream the naive interpreter is the in-order fold:
/// running it for the number of commands left executes exactly those
/// commands, or stops at the failure it meets.
proof fn lemma_run_flat_cmds_is_naive(prog: Seq<Command>, s: MachineState)
    requires
        loop_free(prog),
        0 <= s.pc <= prog.len(),
    ensures
        naive_run_n(prog, s, (prog.len() - s.pc) as nat) == run_flat_cmds(
            prog.subrange(s.pc, prog.len() as int),
            s,
        ),
    decreases prog.len() - s.pc,
{
    let n = (prog.len() - s.pc) as nat;
    let rest = prog.subrange(s.pc, prog.len() as int);
    if s.pc == prog.len() {
        assert(rest.len() == 0);
    } else if s.failure is Some {
        lemma_naive_run_n_stutter(prog, s, 0, n);
    } else {
        let cur = prog[s.pc];
        assert(!is_loop_cmd(cur));
        let t = naive_step(prog, s);
        assert(t == flat_cmd_step(cur, s));
        assert(t.failure is None ==> t.pc == s.pc + 1);
        assert(t.failure is Some ==> t.pc == s.pc);
        assert(rest[0] == cur);
        assert(rest.subrange(1, rest.len() as int) =~= prog.subrange(
            s.pc + 1,
            prog.len() as int,
        ));
        lemma_naive_run_n_add(prog, s, 1, (n - 1) as nat);
        assert(naive_run_n(prog, s, 0) == s);
        assert(naive_run_n(prog, s, 1) == t);
        if t.failure is Some {
            lemma_naive_run_n_stutter(prog, t, 0, (n - 1) as nat);
            assert(run_flat_cmds(prog.subrange(s.pc + 1, prog.len() as int), t) == t);
        } else {
            lemma_run_flat_cmds_is_naive(prog, t);
        }
    }
}

/// On a straight-line optimized stream the bracket-precomputed interpreter
/// is the in-order fold too; the bracket map plays no part.
proof fn lemma_run_flat_opt_is_interp(
    prog: Seq<OptimizedCommand>,
    map: Map<usize, usize>,
    s: MachineState,
)
    requires
        loop_free_opt(prog),
        0 <= s.pc <= prog.len(),
    ensures
        opt_run_n(prog, map, s, (prog.len() - s.pc) as nat) == run_flat_opt(
            prog.subrange(s.pc, prog.len() as int),
            s,
        ),
    decreases prog.len() - s.pc,
{
    let n = (prog.len() - s.pc) as nat;
    let rest = prog.subrange(s.pc, prog.len() as int);
    if s.pc == prog.len() {
        assert(rest.len() == 0);
    } else if s.failure is Some {
        lemma_opt_run_n_stutter(prog, map, s, 0, n);
    } else {
        let cur = prog[s.pc];
        let t = opt_step(prog, map, s);
        assert(t == flat_opt_step(cur, s));
        assert(t.failure is None ==> t.pc == s.pc + 1);
        assert(t.failure is Some ==> t.pc == s.pc);
        assert(rest[0] == cur);
        assert(rest.subrange(1, rest.len() as int) =~= prog.subrange(
            s.pc + 1,
            prog.len() as int,
        ));
        lemma_opt_run_n_add(prog, map, s, 1, (n - 1) as nat);
        assert(opt_run_n(prog, map, s, 0) == s);
        assert(opt_run_n(prog, map, s, 1) == t);
        if t.failure is Some {
            lemma_opt_run_n_stutter(prog, map, t, 0, (n - 1) as nat);
            assert(run_flat_opt(prog.subrange(s.pc + 1, prog.len() as int), t) == t);
        } else {
            lemma_run_flat_opt_is_interp(prog, map, t);
        }
    }
}

/// Optimizer equivalence at the interpreters, for straight-line programs:
/// simulating the optimized stream (under any bracket map — none is
/// consulted) yields the same tape, cursor, input, output and absence of
/// failure as simulating the raw command stream, whenever the raw run does
/// not stop in a failure.
pub proof fn lemma_optimizer_equivalence_straight_line(
    cmds: Seq<Command>,
    map: Map<usize, usize>,
    s: MachineState,
)
    requires
        loop_free(cmds),
        cmds.len() <= 0x4000_0000,
        s.pc == 0,
        naive_run_n(cmds, s, cmds.len()).failure is None,
    ensures
        obs_eq(
            opt_run_n(optimize_spec(cmds), map, s, optimize_spec(cmds).len()),
            naive_run_n(cmds, s, cmds.len()),
        ),
{
    let opt = optimize_spec(cmds);
    lemma_optimize_loop_free(cmds, 0, Seq::empty());
    assert(cmds.subrange(0, cmds.len() as int) =~= cmds);
    assert(opt.subrange(0, opt.len() as int) =~= opt);
    lemma_run_flat_cmds_is_naive(cmds, s);
    lemma_optimizer_equivalence_flat(cmds, s);
    lemma_run_flat_opt_is_interp(opt, map, s);
}

/// Optimizer equivalence for straight-line programs: for every loop-free
/// command stream whose in-order run does not stop in a failure, running
/// the optimized stream from the same state yields the same tape, cursor,
/// input, output and absence of failure as running the primitive commands
/// one by one.
pub proof fn lemma_optimizer_equivalence_flat(cmds: Seq<Command>, s: MachineState)
    requires
        loop_free(cmds),
        cmds.len() <= 0x4000_0000,
        run_flat_cmds(cmds, s).failure is None,
    ensures
        obs_eq(run_flat_opt(optimize_spec(cmds), s), run_flat_cmds(cmds, s)),
{
    assert(cmds.subrange(0, cmds.len() as int) =~= cmds);
    assert(run_flat_opt(Seq::<OptimizedCommand>::empty(), s) == s);
    lemma_optimize_from_equiv(cmds, 0, Seq::empty(), s);
}

} // verus!
