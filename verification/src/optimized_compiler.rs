use vstd::prelude::*;
use vstd::pervasive::VecAdditionalExecFns;
use crate::brackets::{
    balanced, bracket_map_of, bracket_scan, lemma_scan_err_persists, lemma_scan_props, LoopRole,
};
use crate::machine::zero_tape;
use crate::optimized_command::{emit_le8, encode_spec, le4, le8, OptimizedCommand};
use crate::optimized_program::{roles_of_opt, OptimizedProgram};

verus! {

/// The longest stream the code generator accepts. It keeps every byte
/// offset of the buffer, and with it every branch displacement, well inside
/// the 4-byte operand's signed range.
pub const MAX_PROGRAM_LEN: usize = 0x0400_0000;

/// A buffer with the bytes starting at `at` replaced by those of `b`.
pub open spec fn overwrite(s: Seq<u8>, at: int, b: Seq<u8>) -> Seq<u8> {
    Seq::new(s.len(), |i: int| if at <= i < at + b.len() { b[i - at] } else { s[i] })
}

/// The code buffer and pending-relocation stack after emitting the first
/// `i` instructions. The prelude loads the tape's base address into the
/// reserved register; each instruction then appends its encoding. A
/// loop-open pushes the buffer offset just past its displacement operand; a
/// loop-close pops it, computes the distance between the two points just
/// past the operands, and overwrites the open's operand with that forward
/// displacement and its own with the negation (as two's complement).
pub open spec fn compile_state(prog: Seq<OptimizedCommand>, tape_addr: u64, i: int) -> (Seq<
    u8,
>, Seq<usize>)
    decreases i,
{
    if i <= 0 {
        (seq![0x49u8, 0xbdu8] + le8(tape_addr), Seq::empty())
    } else {
        let (code, st) = compile_state(prog, tape_addr, i - 1);
        let code1 = code + encode_spec(prog[i - 1]);
        match prog[i - 1] {
            OptimizedCommand::JumpForward => (code1, st.push(code1.len() as usize)),
            OptimizedCommand::JumpBackwards => {
                if st.len() == 0 {
                    (code1, st)
                } else {
                    let left = st.last() as int;
                    let right = code1.len() as int;
                    let rel = right - left;
                    let patched = overwrite(
                        overwrite(code1, left - 4, le4(rel as u32)),
                        right - 4,
                        le4((0x1_0000_0000 - rel) as u32),
                    );
                    (patched, st.drop_last())
                }
            },
            _ => (code1, st),
        }
    }
}

/// The finished buffer: the prelude, every instruction with its
/// displacements patched, and a final return instruction.
pub open spec fn compiled_code(prog: Seq<OptimizedCommand>, tape_addr: u64) -> Seq<u8> {
    compile_state(prog, tape_addr, prog.len() as int).0 + seq![0xc3u8]
}

/// The byte offset of instruction `k`'s block in the generated buffer: the
/// 10-byte prelude, then the encodings of the instructions before it.
pub open spec fn code_offset(prog: Seq<OptimizedCommand>, k: int) -> int
    decreases k,
{
    if k <= 0 {
        10
    } else {
        code_offset(prog, k - 1) + encode_spec(prog[k - 1]).len()
    }
}

/// Offsets grow along the stream, starting from the prelude's end.
pub proof fn lemma_code_offset_mono(prog: Seq<OptimizedCommand>, k1: int, k2: int)
    requires
        k1 <= k2,
    ensures
        code_offset(prog, k1) <= code_offset(prog, k2),
        10 <= code_offset(prog, k2) || k2 < 0,
    decreases k2 - k1, k2,
{
    if k1 < k2 {
        lemma_code_offset_mono(prog, k1, k2 - 1);
        if k2 > 0 {
            assert(encode_spec(prog[k2 - 1]).len() >= 5);
        }
    } else if k2 > 0 {
        lemma_code_offset_mono(prog, k1 - 1, k2 - 1);
    }
}

/// Offsets stay within 26 bytes per instruction past the prelude.
pub proof fn lemma_code_offset_bound(prog: Seq<OptimizedCommand>, k: int)
    requires
        k >= 0,
    ensures
        code_offset(prog, k) <= 10 + 26 * k,
    decreases k,
{
    if k > 0 {
        lemma_code_offset_bound(prog, k - 1);
        assert(encode_spec(prog[k - 1]).len() <= 26);
    }
}

/// Appending bytes leaves every earlier range of the buffer as it was.
proof fn lemma_append_preserves(s: Seq<u8>, t: Seq<u8>, a: int, b: int)
    requires
        0 <= a <= b <= s.len(),
    ensures
        (s + t).subrange(a, b) == s.subrange(a, b),
{
    assert((s + t).subrange(a, b) =~= s.subrange(a, b));
}

/// Overwriting one range leaves every disjoint range of the buffer as it
/// was.
proof fn lemma_overwrite_preserves(s: Seq<u8>, at: int, b: Seq<u8>, a1: int, b1: int)
    requires
        0 <= a1 <= b1 <= s.len(),
        b1 <= at || at + b.len() <= a1,
    ensures
        overwrite(s, at, b).subrange(a1, b1) == s.subrange(a1, b1),
{
    assert(overwrite(s, at, b).subrange(a1, b1) =~= s.subrange(a1, b1));
}

/// An overwritten range reads back the bytes written into it.
proof fn lemma_overwrite_at(s: Seq<u8>, at: int, b: Seq<u8>)
    requires
        0 <= at,
        at + b.len() <= s.len(),
    ensures
        overwrite(s, at, b).subrange(at, at + b.len() as int) == b,
{
    assert(overwrite(s, at, b).subrange(at, at + b.len() as int) =~= b);
}

/// The bytes a buffer must show for a matched pair of loop instructions
/// `i < j`: both compare-and-branch opcodes intact, the open's 4-byte
/// operand holding the forward displacement from just past its own operand
/// to just past the close's, and the close's operand holding the same
/// distance negated, as two's complement.
pub open spec fn pair_patched(prog: Seq<OptimizedCommand>, code: Seq<u8>, i: int, j: int) -> bool {
    let left_end = code_offset(prog, i) + 11;
    let right_end = code_offset(prog, j) + 11;
    let rel = right_end - left_end;
    &&& code.subrange(code_offset(prog, i), left_end - 4) == encode_spec(
        OptimizedCommand::JumpForward,
    ).subrange(0, 7)
    &&& code.subrange(left_end - 4, left_end) == le4(rel as u32)
    &&& code.subrange(code_offset(prog, j), right_end - 4) == encode_spec(
        OptimizedCommand::JumpBackwards,
    ).subrange(0, 7)
    &&& code.subrange(right_end - 4, right_end) == le4((0x1_0000_0000 - rel) as u32)
}

/// What holds of a partially generated buffer: it spans exactly the emitted
/// blocks, the relocation stack points just past each pending open's
/// operand, every non-loop block is its instruction's encoding, every
/// pending open still shows its placeholder, and every matched pair is
/// already patched as `pair_patched` demands.
pub open spec fn gen_invariant(prog: Seq<OptimizedCommand>, addr: u64, n: int) -> bool {
    match bracket_scan(roles_of_opt(prog), n) {
        Ok((m, st)) => {
            let roles = roles_of_opt(prog);
            let code = compile_state(prog, addr, n).0;
            let cst = compile_state(prog, addr, n).1;
            &&& code.len() == code_offset(prog, n)
            &&& code.subrange(0, 10) == seq![0x49u8, 0xbdu8] + le8(addr)
            &&& cst.len() == st.len()
            &&& (forall|k: int|
                0 <= k < st.len() ==> #[trigger] cst[k] == code_offset(prog, st[k] as int) + 11)
            &&& (forall|k: int|
                0 <= k < n && #[trigger] roles[k] == LoopRole::Other ==> code.subrange(
                    code_offset(prog, k),
                    code_offset(prog, k + 1),
                ) == encode_spec(prog[k]))
            &&& (forall|k: int|
                0 <= k < st.len() ==> code.subrange(
                    code_offset(prog, #[trigger] st[k] as int),
                    code_offset(prog, st[k] as int) + 11,
                ) == encode_spec(OptimizedCommand::JumpForward))
            &&& (forall|i: usize| #[trigger]
                m.contains_key(i) && i < m[i] ==> pair_patched(prog, code, i as int, m[i] as int))
        },
        Err(_) => false,
    }
}

/// Overwriting two ranges leaves every range disjoint from both as it was.
proof fn lemma_two_patches_preserve(
    s: Seq<u8>,
    at1: int,
    b1: Seq<u8>,
    at2: int,
    b2: Seq<u8>,
    a: int,
    b: int,
)
    requires
        0 <= a <= b <= s.len(),
        b <= at1 || at1 + b1.len() <= a,
        b <= at2 || at2 + b2.len() <= a,
    ensures
        overwrite(overwrite(s, at1, b1), at2, b2).subrange(a, b) == s.subrange(a, b),
{
    lemma_overwrite_preserves(s, at1, b1, a, b);
    lemma_overwrite_preserves(overwrite(s, at1, b1), at2, b2, a, b);
}

/// Appending one instruction's encoding keeps everything already
/// established about the buffer: the prelude, every finished non-loop
/// block, every pending open's placeholder, and every patched pair.
#[verifier::rlimit(100)]
#[verifier::spinoff_prover]
proof fn lemma_append_transfers(prog: Seq<OptimizedCommand>, addr: u64, n: int)
    requires
        1 <= n <= prog.len(),
        prog.len() <= MAX_PROGRAM_LEN,
        bracket_scan(roles_of_opt(prog), n - 1) is Ok,
        gen_invariant(prog, addr, n - 1),
    ensures
        match bracket_scan(roles_of_opt(prog), n - 1) {
            Ok((m, st)) => {
                let roles = roles_of_opt(prog);
                let code1 = compile_state(prog, addr, n - 1).0 + encode_spec(prog[n - 1]);
                &&& code1.subrange(0, 10) == seq![0x49u8, 0xbdu8] + le8(addr)
                &&& (forall|k: int|
                    0 <= k < n - 1 && #[trigger] roles[k] == LoopRole::Other ==> code1.subrange(
                        code_offset(prog, k),
                        code_offset(prog, k + 1),
                    ) == encode_spec(prog[k]))
                &&& (forall|k: int|
                    0 <= k < st.len() ==> code1.subrange(
                        code_offset(prog, #[trigger] st[k] as int),
                        code_offset(prog, st[k] as int) + 11,
                    ) == encode_spec(OptimizedCommand::JumpForward))
                &&& (forall|i: usize| #[trigger]
                    m.contains_key(i) && i < m[i] ==> pair_patched(
                        prog,
                        code1,
                        i as int,
                        m[i] as int,
                    ))
            },
            Err(_) => true,
        },
{
    let roles = roles_of_opt(prog);
    let (m, st) = match bracket_scan(roles, n - 1) {
        Ok(p) => p,
        Err(_) => arbitrary(),
    };
    lemma_scan_props(roles, n - 1);
    let code = compile_state(prog, addr, n - 1).0;
    let enc = encode_spec(prog[n - 1]);
    let code1 = code + enc;
    lemma_code_offset_mono(prog, 0, n - 1);
    lemma_append_preserves(code, enc, 0, 10);
    assert forall|k: int| 0 <= k < n - 1 && #[trigger] roles[k] == LoopRole::Other
        implies code1.subrange(code_offset(prog, k), code_offset(prog, k + 1)) == encode_spec(
        prog[k],
    ) by {
        lemma_code_offset_mono(prog, 0, k);
        lemma_code_offset_mono(prog, k, k + 1);
        lemma_code_offset_mono(prog, k + 1, n - 1);
        lemma_append_preserves(code, enc, code_offset(prog, k), code_offset(prog, k + 1));
    }
    assert forall|k: int| 0 <= k < st.len() implies code1.subrange(
        code_offset(prog, #[trigger] st[k] as int),
        code_offset(prog, st[k] as int) + 11,
    ) == encode_spec(OptimizedCommand::JumpForward) by {
        let sk = st[k] as int;
        assert(roles[sk] == LoopRole::Open);
        lemma_code_offset_mono(prog, 0, sk);
        assert(encode_spec(prog[sk]).len() == 11);
        assert(code_offset(prog, sk) + 11 == code_offset(prog, sk + 1));
        lemma_code_offset_mono(prog, sk + 1, n - 1);
        lemma_append_preserves(code, enc, code_offset(prog, sk), code_offset(prog, sk) + 11);
    }
    assert forall|i: usize| #[trigger] m.contains_key(i) && i < m[i] implies pair_patched(
        prog,
        code1,
        i as int,
        m[i] as int,
    ) by {
        let ii = i as int;
        let j = m[i] as int;
        assert(pair_patched(prog, code, ii, j));
        assert(roles[ii] == LoopRole::Open && roles[j] == LoopRole::Close);
        assert(encode_spec(prog[ii]).len() == 11);
        assert(encode_spec(prog[j]).len() == 11);
        assert(code_offset(prog, ii) + 11 == code_offset(prog, ii + 1));
        assert(code_offset(prog, j) + 11 == code_offset(prog, j + 1));
        lemma_code_offset_mono(prog, 0, ii);
        lemma_code_offset_mono(prog, 0, j);
        lemma_code_offset_mono(prog, ii + 1, n - 1);
        lemma_code_offset_mono(prog, j + 1, n - 1);
        lemma_append_preserves(code, enc, code_offset(prog, ii), code_offset(prog, ii) + 7);
        lemma_append_preserves(code, enc, code_offset(prog, ii) + 7, code_offset(prog, ii) + 11);
        lemma_append_preserves(code, enc, code_offset(prog, j), code_offset(prog, j) + 7);
        lemma_append_preserves(code, enc, code_offset(prog, j) + 7, code_offset(prog, j) + 11);
    }
}

/// One emission step for an instruction that takes no part in relocation.
#[verifier::rlimit(100)]
#[verifier::spinoff_prover]
proof fn lemma_gen_step_plain(prog: Seq<OptimizedCommand>, addr: u64, n: int)
    requires
        1 <= n <= prog.len(),
        prog.len() <= MAX_PROGRAM_LEN,
        roles_of_opt(prog)[n - 1] == LoopRole::Other,
        bracket_scan(roles_of_opt(prog), n) is Ok,
        gen_invariant(prog, addr, n - 1),
    ensures
        gen_invariant(prog, addr, n),
{
    let roles = roles_of_opt(prog);
    lemma_append_transfers(prog, addr, n);
    let code = compile_state(prog, addr, n - 1).0;
    let cmd = prog[n - 1];
    let enc = encode_spec(cmd);
    let code1 = code + enc;
    let off_prev = code_offset(prog, n - 1);
    assert(compile_state(prog, addr, n).0 == code1);
    assert(compile_state(prog, addr, n).1 == compile_state(prog, addr, n - 1).1);
    assert(code1.subrange(off_prev, off_prev + enc.len()) =~= enc);
    assert(gen_invariant(prog, addr, n));
}

/// One emission step for a loop-open: its placeholder block is appended and
/// the offset just past its operand is pushed for later relocation.
#[verifier::rlimit(100)]
#[verifier::spinoff_prover]
proof fn lemma_gen_step_open(prog: Seq<OptimizedCommand>, addr: u64, n: int)
    requires
        1 <= n <= prog.len(),
        prog.len() <= MAX_PROGRAM_LEN,
        roles_of_opt(prog)[n - 1] == LoopRole::Open,
        bracket_scan(roles_of_opt(prog), n) is Ok,
        gen_invariant(prog, addr, n - 1),
    ensures
        gen_invariant(prog, addr, n),
{
    let roles = roles_of_opt(prog);
    lemma_append_transfers(prog, addr, n);
    let (m, st) = match bracket_scan(roles, n - 1) {
        Ok(p) => p,
        Err(_) => arbitrary(),
    };
    let code = compile_state(prog, addr, n - 1).0;
    let cmd = prog[n - 1];
    assert(cmd == OptimizedCommand::JumpForward);
    let enc = encode_spec(cmd);
    let code1 = code + enc;
    let off_prev = code_offset(prog, n - 1);
    lemma_code_offset_bound(prog, n);
    assert(code1.len() <= 10 + 26 * n);
    assert(compile_state(prog, addr, n).0 == code1);
    assert(compile_state(prog, addr, n).1 == compile_state(prog, addr, n - 1).1.push(
        code1.len() as usize,
    ));
    assert(code1.subrange(off_prev, off_prev + 11) =~= enc);
    let st2 = st.push((n - 1) as usize);
    assert forall|k: int| 0 <= k < st2.len() implies code1.subrange(
        code_offset(prog, #[trigger] st2[k] as int),
        code_offset(prog, st2[k] as int) + 11,
    ) == encode_spec(OptimizedCommand::JumpForward) by {
        if k < st.len() {
            assert(st2[k] == st[k]);
        } else {
            assert(st2[k] as int == n - 1);
        }
    }
    assert(gen_invariant(prog, addr, n));
}

/// One emission step for a loop-close: its block is appended, the matching
/// open's offset is popped, and both displacement operands are patched.
#[verifier::rlimit(100)]
#[verifier::spinoff_prover]
proof fn lemma_gen_step_close(prog: Seq<OptimizedCommand>, addr: u64, n: int)
    requires
        1 <= n <= prog.len(),
        prog.len() <= MAX_PROGRAM_LEN,
        roles_of_opt(prog)[n - 1] == LoopRole::Close,
        bracket_scan(roles_of_opt(prog), n) is Ok,
        gen_invariant(prog, addr, n - 1),
    ensures
        gen_invariant(prog, addr, n),
{
    let roles = roles_of_opt(prog);
    let (m, st) = match bracket_scan(roles, n - 1) {
        Ok(p) => p,
        Err(_) => arbitrary(),
    };
    lemma_scan_props(roles, n - 1);
    let code = compile_state(prog, addr, n - 1).0;
    let cst = compile_state(prog, addr, n - 1).1;
    let cmd = prog[n - 1];
    assert(cmd == OptimizedCommand::JumpBackwards);
    let enc = encode_spec(cmd);
    let code1 = code + enc;
    let off_prev = code_offset(prog, n - 1);
    lemma_code_offset_mono(prog, 0, n - 1);
    assert(code1.subrange(off_prev, off_prev + 11) =~= enc);
    assert(st.len() > 0);
    let open_i = st.last() as int;
    assert(0 <= open_i < n - 1);
    assert(roles[open_i] == LoopRole::Open);
    assert(cst.last() == code_offset(prog, open_i) + 11);
    let left = code_offset(prog, open_i) + 11;
    let right = code1.len() as int;
    assert(right == off_prev + 11);
    assert(right == code_offset(prog, n));
    let rel = right - left;
    assert(encode_spec(prog[open_i]).len() == 11);
    assert(left == code_offset(prog, open_i + 1));
    lemma_code_offset_mono(prog, 0, open_i);
    lemma_code_offset_mono(prog, open_i + 1, n - 1);
    let fwd = le4(rel as u32);
    let back = le4((0x1_0000_0000 - rel) as u32);
    let mid = overwrite(code1, left - 4, fwd);
    let patched = overwrite(mid, right - 4, back);
    assert(compile_state(prog, addr, n).0 == patched);
    assert(compile_state(prog, addr, n).1 == cst.drop_last());
    assert(patched.len() == code1.len());
    // the two patch sites read back exactly
    lemma_overwrite_at(code1, left - 4, fwd);
    lemma_overwrite_preserves(mid, right - 4, back, left - 4, left);
    assert(patched.subrange(left - 4, left) == fwd);
    lemma_overwrite_at(mid, right - 4, back);
    assert(patched.subrange(right - 4, right) == back);
    // the pair closed here: both opcodes intact, operands freshly written
    lemma_append_preserves(code, enc, left - 11, left - 4);
    lemma_two_patches_preserve(code1, left - 4, fwd, right - 4, back, left - 11, left - 4);
    assert(code.subrange(left - 11, left) == encode_spec(OptimizedCommand::JumpForward));
    assert(code.subrange(left - 11, left - 4) =~= code.subrange(left - 11, left).subrange(0, 7));
    assert(patched.subrange(left - 11, left - 4) == encode_spec(
        OptimizedCommand::JumpForward,
    ).subrange(0, 7));
    lemma_two_patches_preserve(code1, left - 4, fwd, right - 4, back, right - 11, right - 4);
    assert(code1.subrange(right - 11, right) =~= enc);
    assert(code1.subrange(right - 11, right - 4) =~= enc.subrange(0, 7));
    assert(patched.subrange(right - 11, right - 4) == encode_spec(
        OptimizedCommand::JumpBackwards,
    ).subrange(0, 7));
    assert(pair_patched(prog, patched, open_i, n - 1));
    // the prelude lies before both patch sites
    lemma_append_preserves(code, enc, 0, 10);
    lemma_two_patches_preserve(code1, left - 4, fwd, right - 4, back, 0, 10);
    match bracket_scan(roles, n) {
        Ok((m2, st2)) => {
            assert(st2 == st.drop_last());
            assert(m2 == m.insert((n - 1) as usize, st.last()).insert(
                st.last(),
                (n - 1) as usize,
            ));
            // pending opens other than the one just closed lie strictly
            // below it, hence before both patch sites
            assert forall|k: int| 0 <= k < st2.len() implies patched.subrange(
                code_offset(prog, #[trigger] st2[k] as int),
                code_offset(prog, st2[k] as int) + 11,
            ) == encode_spec(OptimizedCommand::JumpForward) by {
                let sk = st2[k] as int;
                assert(st2[k] == st[k]);
                assert(st[k] < st[st.len() - 1]);
                assert(roles[sk] == LoopRole::Open);
                lemma_code_offset_mono(prog, 0, sk);
                assert(encode_spec(prog[sk]).len() == 11);
                assert(code_offset(prog, sk) + 11 == code_offset(prog, sk + 1));
                lemma_code_offset_mono(prog, sk + 1, open_i);
                lemma_code_offset_mono(prog, sk + 1, n - 1);
                lemma_append_preserves(code, enc, code_offset(prog, sk), code_offset(prog, sk) + 11);
                lemma_two_patches_preserve(
                    code1,
                    left - 4,
                    fwd,
                    right - 4,
                    back,
                    code_offset(prog, sk),
                    code_offset(prog, sk) + 11,
                );
            }
            // non-loop blocks never overlap either patch site
            assert forall|k: int| 0 <= k < n && #[trigger] roles[k] == LoopRole::Other
                implies patched.subrange(code_offset(prog, k), code_offset(prog, k + 1))
                == encode_spec(prog[k]) by {
                assert(k < n - 1);
                assert(k != open_i);
                lemma_code_offset_mono(prog, 0, k);
                lemma_code_offset_mono(prog, k, k + 1);
                if k < open_i {
                    lemma_code_offset_mono(prog, k + 1, open_i);
                } else {
                    lemma_code_offset_mono(prog, open_i + 1, k);
                }
                lemma_code_offset_mono(prog, k + 1, n - 1);
                lemma_append_preserves(code, enc, code_offset(prog, k), code_offset(prog, k + 1));
                lemma_two_patches_preserve(
                    code1,
                    left - 4,
                    fwd,
                    right - 4,
                    back,
                    code_offset(prog, k),
                    code_offset(prog, k + 1),
                );
            }
            // earlier pairs sit in blocks disjoint from both patch sites
            assert forall|i: usize| #[trigger] m2.contains_key(i) && i < m2[i]
                implies pair_patched(prog, patched, i as int, m2[i] as int) by {
                if i == st.last() {
                    assert(m2[i] == (n - 1) as usize);
                    assert(pair_patched(prog, patched, open_i, n - 1));
                } else if i as int == n - 1 {
                    assert(!(i < m2[i]));
                } else {
                    assert(m.contains_key(i) && m[i] == m2[i]);
                    let j = m[i] as int;
                    let ii = i as int;
                    assert(pair_patched(prog, code, ii, j));
                    assert(0 <= ii < n - 1 && 0 <= j < n - 1);
                    assert(ii != open_i && j != open_i);
                    assert(roles[ii] == LoopRole::Open && roles[j] == LoopRole::Close);
                    assert(encode_spec(prog[ii]).len() == 11);
                    assert(encode_spec(prog[j]).len() == 11);
                    assert(code_offset(prog, ii) + 11 == code_offset(prog, ii + 1));
                    assert(code_offset(prog, j) + 11 == code_offset(prog, j + 1));
                    lemma_code_offset_mono(prog, 0, ii);
                    lemma_code_offset_mono(prog, 0, j);
                    if ii < open_i {
                        lemma_code_offset_mono(prog, ii + 1, open_i);
                    } else {
                        lemma_code_offset_mono(prog, open_i + 1, ii);
                    }
                    if j < open_i {
                        lemma_code_offset_mono(prog, j + 1, open_i);
                    } else {
                        lemma_code_offset_mono(prog, open_i + 1, j);
                    }
                    lemma_code_offset_mono(prog, ii + 1, n - 1);
                    lemma_code_offset_mono(prog, j + 1, n - 1);
                    lemma_append_preserves(code, enc, code_offset(prog, ii), code_offset(prog, ii) + 7);
                    lemma_append_preserves(code, enc, code_offset(prog, ii) + 7, code_offset(prog, ii) + 11);
                    lemma_append_preserves(code, enc, code_offset(prog, j), code_offset(prog, j) + 7);
                    lemma_append_preserves(code, enc, code_offset(prog, j) + 7, code_offset(prog, j) + 11);
                    lemma_two_patches_preserve(code1, left - 4, fwd, right - 4, back, code_offset(prog, ii), code_offset(prog, ii) + 7);
                    lemma_two_patches_preserve(code1, left - 4, fwd, right - 4, back, code_offset(prog, ii) + 7, code_offset(prog, ii) + 11);
                    lemma_two_patches_preserve(code1, left - 4, fwd, right - 4, back, code_offset(prog, j), code_offset(prog, j) + 7);
                    lemma_two_patches_preserve(code1, left - 4, fwd, right - 4, back, code_offset(prog, j) + 7, code_offset(prog, j) + 11);
                }
            }
            assert(gen_invariant(prog, addr, n));
        },
        Err(_) => {
            assert(false);
        },
    }
}

/// The invariant holds of every prefix of a stream whose scan succeeds.
pub proof fn lemma_compile_state_patched(prog: Seq<OptimizedCommand>, addr: u64, n: int)
    requires
        0 <= n <= prog.len(),
        prog.len() <= MAX_PROGRAM_LEN,
        bracket_scan(roles_of_opt(prog), n) is Ok,
    ensures
        gen_invariant(prog, addr, n),
    decreases n,
{
    let roles = roles_of_opt(prog);
    if n == 0 {
        let code = compile_state(prog, addr, 0).0;
        assert(code.subrange(0, 10) =~= code);
    } else {
        if bracket_scan(roles, n - 1) is Err {
            assert(bracket_scan(roles, n) is Err);
        }
        lemma_compile_state_patched(prog, addr, n - 1);
        match prog[n - 1] {
            OptimizedCommand::JumpForward => lemma_gen_step_open(prog, addr, n),
            OptimizedCommand::JumpBackwards => lemma_gen_step_close(prog, addr, n),
            _ => lemma_gen_step_plain(prog, addr, n),
        }
    }
}

/// Relocation correctness: in the code generated for a balanced stream,
/// every non-loop instruction's block is exactly its encoding, and every
/// matched pair of loop instructions carries exact displacements — the open
/// branches forward over the loop body to just past the close's operand,
/// and the close branches back by the same distance — with the prelude and
/// final return instruction in place.
pub proof fn lemma_relocation_correct(prog: Seq<OptimizedCommand>, addr: u64)
    requires
        prog.len() <= MAX_PROGRAM_LEN,
        balanced(roles_of_opt(prog)),
    ensures
        compiled_code(prog, addr).len() == code_offset(prog, prog.len() as int) + 1,
        compiled_code(prog, addr).subrange(0, 10) == seq![0x49u8, 0xbdu8] + le8(addr),
        compiled_code(prog, addr).last() == 0xc3,
        forall|k: int|
            0 <= k < prog.len() && #[trigger] roles_of_opt(prog)[k] == LoopRole::Other
                ==> compiled_code(prog, addr).subrange(
                code_offset(prog, k),
                code_offset(prog, k + 1),
            ) == encode_spec(prog[k]),
        forall|i: usize| #[trigger]
            bracket_map_of(roles_of_opt(prog)).contains_key(i) && i < bracket_map_of(
                roles_of_opt(prog),
            )[i] ==> pair_patched(
                prog,
                compiled_code(prog, addr),
                i as int,
                bracket_map_of(roles_of_opt(prog))[i] as int,
            ),
{
    let roles = roles_of_opt(prog);
    let nn = prog.len() as int;
    lemma_compile_state_patched(prog, addr, nn);
    let (code, cst) = compile_state(prog, addr, nn);
    let full = compiled_code(prog, addr);
    assert(full == code + seq![0xc3u8]);
    lemma_code_offset_mono(prog, 0, nn);
    assert forall|a: int, b: int| 0 <= a <= b <= code.len() implies #[trigger] full.subrange(a, b)
        == code.subrange(a, b) by {
        lemma_append_preserves(code, seq![0xc3u8], a, b);
    }
    assert forall|k: int| 0 <= k < nn implies #[trigger] code_offset(prog, k + 1)
        <= code_offset(prog, nn) && 10 <= code_offset(prog, k) && code_offset(prog, k)
        <= code_offset(prog, k + 1) by {
        lemma_code_offset_mono(prog, k + 1, nn);
        lemma_code_offset_mono(prog, 0, k);
        lemma_code_offset_mono(prog, k, k + 1);
    }
    match bracket_scan(roles, nn) {
        Ok((m, st)) => {
            assert(st.len() == 0);
            assert(bracket_map_of(roles) == m);
            lemma_scan_props(roles, nn);
            assert forall|i: usize| #[trigger]
                bracket_map_of(roles).contains_key(i) && i < bracket_map_of(roles)[i]
                implies pair_patched(prog, full, i as int, bracket_map_of(roles)[i] as int) by {
                let ii = i as int;
                let j = m[i] as int;
                assert(pair_patched(prog, code, ii, j));
                assert(roles[ii] == LoopRole::Open && roles[j] == LoopRole::Close);
                assert(encode_spec(prog[ii]).len() == 11);
                assert(encode_spec(prog[j]).len() == 11);
                assert(code_offset(prog, ii) + 11 == code_offset(prog, ii + 1));
                assert(code_offset(prog, j) + 11 == code_offset(prog, j + 1));
            }
        },
        Err(_) => {
            assert(false);
        },
    }
}

/// Relies on `Vec::as_ptr` for the address of the tape's first cell. The
/// address is an accident of allocation that Verus does not model, so
/// nothing is assumed of the value; the contracts carry it around as an
/// arbitrary 64-bit constant.
#[verifier::external_body]
fn tape_base_address(data: &Vec<u8>) -> u64 {
    data.as_ptr() as u64
}

/// Overwrites the 4 bytes of `buf` at `at` with the bytes of `operand`.
fn patch4(buf: &mut Vec<u8>, at: usize, operand: &Vec<u8>)
    requires
        operand@.len() == 4,
        at + 4 <= old(buf)@.len(),
    ensures
        final(buf)@ == overwrite(old(buf)@, at as int, operand@),
{
    let len: usize = buf.len();
    proof {
        assert(at + 4 <= len);
    }
    buf.set(at, operand[0]);
    buf.set(at + 1, operand[1]);
    buf.set(at + 2, operand[2]);
    buf.set(at + 3, operand[3]);
    proof {
        assert(buf@ =~= overwrite(old(buf)@, at as int, operand@));
    }
}

/// The ahead-of-time compiler: turns an optimized instruction stream into
/// one self-contained native procedure over a pinned tape buffer. The tape
/// is allocated here, before any code is generated, because its address is
/// baked into the generated code as an immediate constant; it must not move
/// or be dropped for as long as the generated code may run.
pub struct OptimizedCompiler {
    pub program: OptimizedProgram,
    pub machine_code: Vec<u8>,
    pub data: Vec<u8>,
    pub tape_addr: u64,
}

impl OptimizedCompiler {
    /// A fresh compiler for `program` over a zeroed tape of `data_size`
    /// cells; nothing is generated yet.
    pub fn new(program: OptimizedProgram, data_size: usize) -> (r: OptimizedCompiler)
        ensures
            r.program@ == program@,
            r.machine_code@ == Seq::<u8>::empty(),
            r.data@ == Seq::new(data_size as nat, |i: int| 0u8),
    {
        OptimizedCompiler {
            program,
            machine_code: Vec::new(),
            data: zero_tape(data_size),
            tape_addr: 0,
        }
    }

    /// Generates the machine code for the whole stream, exactly as
    /// `compiled_code` describes it for the tape's base address. Balanced
    /// brackets are a precondition: the stream is assumed to have passed
    /// bracket matching before it reaches the generator.
    pub fn compile(&mut self)
        requires
            balanced(roles_of_opt(old(self).program@)),
            old(self).program@.len() <= MAX_PROGRAM_LEN,
        ensures
            final(self).program == old(self).program,
            final(self).data == old(self).data,
            final(self).machine_code@ == compiled_code(
                old(self).program@,
                final(self).tape_addr,
            ),
    {
        let ghost prog = self.program@;
        let ghost roles = roles_of_opt(prog);
        let addr = tape_base_address(&self.data);
        self.tape_addr = addr;
        self.machine_code = Vec::new();
        self.machine_code.push(0x49);
        self.machine_code.push(0xbd);
        emit_le8(&mut self.machine_code, addr);
        proof {
            assert(self.machine_code@ =~= compile_state(prog, addr, 0).0);
        }
        let mut left_brackets_stack: Vec<usize> = Vec::new();
        let n = self.program.commands.len();
        let mut i: usize = 0;
        while i < n
            invariant
                i <= n,
                n == prog.len(),
                prog == self.program@,
                self.program == old(self).program,
                self.data == old(self).data,
                self.tape_addr == addr,
                roles == roles_of_opt(prog),
                balanced(roles),
                n <= MAX_PROGRAM_LEN,
                self.machine_code@ == compile_state(prog, addr, i as int).0,
                left_brackets_stack@ == compile_state(prog, addr, i as int).1,
                self.machine_code@.len() <= 10 + 26 * i,
                forall|k: int|
                    0 <= k < left_brackets_stack@.len() ==> 4 <= #[trigger] left_brackets_stack@[k]
                        <= self.machine_code@.len(),
                match bracket_scan(roles, i as int) {
                    Ok((m, st)) => st.len() == left_brackets_stack@.len(),
                    Err(_) => false,
                },
            decreases n - i,
        {
            let ghost code_before = self.machine_code@;
            let ghost stack_before = left_brackets_stack@;
            let cmd = self.program.commands[i];
            proof {
                assert(encode_spec(cmd).len() <= 26);
                assert(roles[i as int] == crate::optimized_program::role_of_opt(cmd));
            }
            let mut block = cmd.encode();
            self.machine_code.append(&mut block);
            match cmd {
                OptimizedCommand::JumpForward => {
                    left_brackets_stack.push(self.machine_code.len());
                },
                OptimizedCommand::JumpBackwards => {
                    proof {
                        if bracket_scan(roles, i + 1) is Err {
                            lemma_scan_err_persists(roles, i + 1, roles.len() as int);
                            assert(false);
                        }
                    }
                    if let Some(left) = left_brackets_stack.pop() {
                        let right = self.machine_code.len();
                        let rel = right - left;
                        let fwd_val = rel as u32;
                        let back_val = ((0x1_0000_0000u64 - rel as u64)) as u32;
                        let mut fwd: Vec<u8> = Vec::new();
                        crate::optimized_command::emit_le4(&mut fwd, fwd_val);
                        let mut back: Vec<u8> = Vec::new();
                        crate::optimized_command::emit_le4(&mut back, back_val);
                        patch4(&mut self.machine_code, left - 4, &fwd);
                        patch4(&mut self.machine_code, right - 4, &back);
                        proof {
                            assert(self.machine_code@ =~= compile_state(prog, addr, i + 1).0);
                        }
                    } else {
                        proof {
                            assert(false);
                        }
                    }
                },
                _ => {},
            }
            i += 1;
        }
        self.machine_code.push(0xc3);
        proof {
            assert(self.machine_code@ =~= compiled_code(prog, addr));
        }
    }
}

} // verus!
