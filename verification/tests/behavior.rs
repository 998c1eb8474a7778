use brainfuck_jit_compiler::command::Command;
use brainfuck_jit_compiler::interpreter::Interpreter;
use brainfuck_jit_compiler::machine::{RunError, RunStatus};
use brainfuck_jit_compiler::optimized_command::OptimizedCommand;
use brainfuck_jit_compiler::optimized_compiler::OptimizedCompiler;
use brainfuck_jit_compiler::optimized_interpreter::OptimizedInterpreter;
use brainfuck_jit_compiler::optimized_program::OptimizedProgram;
use brainfuck_jit_compiler::program::Program;

const FUEL: usize = 10_000_000;

fn opt(src: &str) -> OptimizedProgram {
    OptimizedProgram::from(&Program::from(src))
}

fn run_naive(src: &str, input: &[u8], tape: usize) -> (RunStatus, Vec<u8>, Vec<u8>) {
    let mut interp = Interpreter::new(Program::from(src), tape);
    interp.set_input(input.to_vec());
    let status = interp.run(FUEL);
    (status, interp.output().clone(), interp.data.clone())
}

fn run_optimized(src: &str, input: &[u8], tape: usize) -> (RunStatus, Vec<u8>, Vec<u8>) {
    let mut interp = OptimizedInterpreter::new(opt(src), tape).expect("brackets should match");
    interp.set_input(input.to_vec());
    let status = interp.run(FUEL);
    (status, interp.output().clone(), interp.data.clone())
}

// ---- parser ----

#[test]
fn parse_ignores_text_without_commands() {
    let p = Program::from("hello world\n\ttotally ignored 123");
    assert_eq!(p.commands.len(), 0);
}

#[test]
fn parse_interleaved_equals_commands_alone() {
    let a = Program::from("a+b-c[d]e f>g<h i,j k");
    let b = Program::from("+-[]><,");
    assert_eq!(a.commands, b.commands);
}

#[test]
fn parse_all_eight_commands() {
    let p = Program::from("><+-.,[]");
    assert_eq!(
        p.commands,
        vec![
            Command::MoveRight,
            Command::MoveLeft,
            Command::Increment,
            Command::Decrement,
            Command::Print,
            Command::Read,
            Command::JumpForward,
            Command::JumpBackwards,
        ]
    );
}

#[test]
fn try_from_recognizes_and_rejects() {
    assert_eq!(Command::try_from('+'), Ok(Command::Increment));
    assert_eq!(Command::try_from(']'), Ok(Command::JumpBackwards));
    assert_eq!(Command::try_from('x'), Err('x'));
    assert_eq!(Command::try_from(' '), Err(' '));
}

// ---- bracket matching ----

#[test]
fn unmatched_single_open_fails_at_its_index() {
    assert_eq!(opt("[").find_matching_brackets().unwrap_err(), 0);
}

#[test]
fn unmatched_single_close_fails_at_index_zero() {
    assert_eq!(opt("]").find_matching_brackets().unwrap_err(), 0);
}

#[test]
fn unmatched_outer_open_is_reported() {
    // "[[]": the inner pair matches, the outer open at index 0 does not.
    assert_eq!(opt("[[]").find_matching_brackets().unwrap_err(), 0);
}

#[test]
fn earliest_pending_open_is_reported() {
    // "[[": both opens stay pending; the earliest one is reported.
    assert_eq!(opt("[[").find_matching_brackets().unwrap_err(), 0);
}

#[test]
fn unmatched_close_after_pair_is_reported() {
    // "[]]": the close at index 2 finds no open pending.
    assert_eq!(opt("[]]").find_matching_brackets().unwrap_err(), 2);
}

#[test]
fn bracket_map_is_symmetric_and_total() {
    // "[[]]" optimizes to four loop instructions; every index is mapped and
    // map[map[i]] == i.
    let m = opt("[[]]").find_matching_brackets().unwrap();
    assert_eq!(m.len(), 4);
    for i in 0..4usize {
        let j = *m.get(&i).unwrap();
        assert_eq!(*m.get(&j).unwrap(), i);
    }
    assert_eq!(*m.get(&0).unwrap(), 3);
    assert_eq!(*m.get(&1).unwrap(), 2);
}

#[test]
fn interpreter_construction_reports_unmatched_bracket() {
    // indices refer to the optimized stream: "++[" is Add(2) then loop-open
    assert_eq!(OptimizedInterpreter::new(opt("++["), 10).err(), Some(1));
}

// ---- optimizer ----

#[test]
fn moves_fuse_into_one_instruction() {
    assert_eq!(opt(">>><<").commands, vec![OptimizedCommand::Move(1)]);
}

#[test]
fn adds_fuse_into_one_instruction() {
    assert_eq!(opt("+++--").commands, vec![OptimizedCommand::Add(1)]);
}

#[test]
fn zero_loop_collapses_to_set_to_zero() {
    assert_eq!(opt("[-]").commands, vec![OptimizedCommand::SetToZero]);
}

#[test]
fn zero_loop_recognized_after_other_instructions() {
    assert_eq!(
        opt("+++[-]").commands,
        vec![OptimizedCommand::Add(3), OptimizedCommand::SetToZero]
    );
}

#[test]
fn non_idiom_loop_is_kept_verbatim() {
    assert_eq!(
        opt("[+]").commands,
        vec![
            OptimizedCommand::JumpForward,
            OptimizedCommand::Add(1),
            OptimizedCommand::JumpBackwards,
        ]
    );
}

#[test]
fn mixed_stream_optimizes_piecewise() {
    assert_eq!(
        opt(">+<-.").commands,
        vec![
            OptimizedCommand::Move(1),
            OptimizedCommand::Add(1),
            OptimizedCommand::Move(-1),
            OptimizedCommand::Add(255),
            OptimizedCommand::Print,
        ]
    );
}

#[test]
fn decrement_alone_becomes_add_255() {
    assert_eq!(opt("-").commands, vec![OptimizedCommand::Add(255)]);
}

// ---- interpreters ----

#[test]
fn plus_three_prints_byte_three() {
    let (status, out, _) = run_naive("+++.", &[], 10);
    assert_eq!(status, RunStatus::Finished);
    assert_eq!(out, vec![3u8]);
    let (status, out, _) = run_optimized("+++.", &[], 10);
    assert_eq!(status, RunStatus::Finished);
    assert_eq!(out, vec![3u8]);
}

#[test]
fn hello_world_prints_exactly() {
    let src = "++++++++[>++++[>++>+++>+++>+<<<<-]>+>+>->>+[<]<-]>>.>---.+++++++..+++.>>.<-.<.+++.------.--------.>>+.>++.";
    let (status, out, _) = run_naive(src, &[], 30_000);
    assert_eq!(status, RunStatus::Finished);
    assert_eq!(out, b"Hello World!\n".to_vec());
    let (status, out, _) = run_optimized(src, &[], 30_000);
    assert_eq!(status, RunStatus::Finished);
    assert_eq!(out, b"Hello World!\n".to_vec());
}

#[test]
fn echo_copies_one_input_byte() {
    let (status, out, _) = run_naive(",.", b"x", 10);
    assert_eq!(status, RunStatus::Finished);
    assert_eq!(out, vec![b'x']);
    let (status, out, _) = run_optimized(",.", b"Q", 10);
    assert_eq!(status, RunStatus::Finished);
    assert_eq!(out, vec![b'Q']);
}

#[test]
fn zero_loop_clears_nonzero_cell_and_terminates() {
    let (status, out, tape) = run_optimized("+++++[-].", &[], 4);
    assert_eq!(status, RunStatus::Finished);
    assert_eq!(out, vec![0u8]);
    assert_eq!(tape, vec![0u8, 0, 0, 0]);
    // The raw loop behaves the same under the naive interpreter.
    let (status, out, tape) = run_naive("+++++[-].", &[], 4);
    assert_eq!(status, RunStatus::Finished);
    assert_eq!(out, vec![0u8]);
    assert_eq!(tape, vec![0u8, 0, 0, 0]);
}

#[test]
fn cell_arithmetic_wraps_modulo_256() {
    // 255 increments followed by one more wraps the cell to zero.
    let mut src = String::new();
    for _ in 0..256 {
        src.push('+');
    }
    src.push('.');
    let (status, out, _) = run_naive(&src, &[], 4);
    assert_eq!(status, RunStatus::Finished);
    assert_eq!(out, vec![0u8]);
    let (status, out, _) = run_optimized(&src, &[], 4);
    assert_eq!(status, RunStatus::Finished);
    assert_eq!(out, vec![0u8]);
}

#[test]
fn empty_program_finishes_with_no_output() {
    let (status, out, _) = run_naive("", &[], 10);
    assert_eq!(status, RunStatus::Finished);
    assert!(out.is_empty());
    let (status, out, _) = run_optimized("", &[], 10);
    assert_eq!(status, RunStatus::Finished);
    assert!(out.is_empty());
}

#[test]
fn read_without_input_fails() {
    let (status, _, _) = run_naive(",", &[], 10);
    assert_eq!(status, RunStatus::Failed(RunError::InputExhausted));
    let (status, _, _) = run_optimized(",", &[], 10);
    assert_eq!(status, RunStatus::Failed(RunError::InputExhausted));
}

#[test]
fn cursor_leaving_tape_fails() {
    let (status, _, _) = run_naive(">>>", &[], 2);
    assert_eq!(status, RunStatus::Failed(RunError::CursorOutOfRange));
    let (status, _, _) = run_optimized(">>>", &[], 2);
    assert_eq!(status, RunStatus::Failed(RunError::CursorOutOfRange));
    let (status, _, _) = run_naive("<", &[], 2);
    assert_eq!(status, RunStatus::Failed(RunError::CursorOutOfRange));
}

#[test]
fn spinning_loop_exhausts_step_budget() {
    let mut interp = Interpreter::new(Program::from("+[]"), 4);
    let status = interp.run(1000);
    assert_eq!(status, RunStatus::Exhausted);
}

#[test]
fn naive_jump_with_no_matching_bracket_fails() {
    let (status, _, _) = run_naive("[", &[], 4);
    assert_eq!(status, RunStatus::Failed(RunError::UnmatchedBracket));
    let (status, _, _) = run_naive("+]", &[], 4);
    assert_eq!(status, RunStatus::Failed(RunError::UnmatchedBracket));
}

// ---- optimizer equivalence, differentially across both interpreters ----

fn assert_backends_agree(src: &str, input: &[u8], tape: usize) {
    let (s1, out1, tape1) = run_naive(src, input, tape);
    let (s2, out2, tape2) = run_optimized(src, input, tape);
    assert_eq!(s1, RunStatus::Finished);
    assert_eq!(s2, RunStatus::Finished);
    assert_eq!(out1, out2);
    assert_eq!(tape1, tape2);
}

#[test]
fn backends_agree_on_verbatim_translation() {
    // the unfused one-for-one translation, as the no-optimization path runs
    let src = "+++[>++[>+<-]<-]>>.";
    let program = Program::from(src);
    let verbatim = OptimizedProgram {
        commands: program.commands.iter().map(OptimizedCommand::from).collect(),
    };
    let mut interp = OptimizedInterpreter::new(verbatim, 8).unwrap();
    let status = interp.run(FUEL);
    let (s_naive, out_naive, tape_naive) = run_naive(src, &[], 8);
    assert_eq!(status, s_naive);
    assert_eq!(*interp.output(), out_naive);
    assert_eq!(interp.data, tape_naive);
}

#[test]
fn backends_agree_on_multiplication_loop() {
    // 2 * 3 into the next cell, then print: output byte 6.
    assert_backends_agree("++[>+++<-]>.", &[], 8);
}

#[test]
fn backends_agree_on_nested_loops() {
    // Two nested loops with distinguishable per-iteration side effects.
    assert_backends_agree("+++[>++[>+<-]<-]>>.", &[], 8);
}

#[test]
fn backends_agree_on_triple_nesting() {
    assert_backends_agree("++[>++[>++[>+<-]<-]<-]>>>.", &[], 8);
}

#[test]
fn backends_agree_on_io_and_arithmetic() {
    assert_backends_agree(",>,<[->>+<<]>[->+<]>.", b"\x15\x20", 8);
}

// ---- code generator ----

#[test]
fn compile_single_add_emits_prelude_body_and_return() {
    let mut compiler = OptimizedCompiler::new(opt("+"), 16);
    compiler.compile();
    let code = &compiler.machine_code;
    assert_eq!(code.len(), 16);
    // prelude: movabs tape address into r13
    assert_eq!(code[0..2], [0x49, 0xbd]);
    let addr = u64::from_le_bytes(code[2..10].try_into().unwrap());
    assert_eq!(addr, compiler.tape_addr);
    // body: addb $1, 0(%r13)
    assert_eq!(code[10..15], [0x41, 0x80, 0x45, 0x00, 0x01]);
    // ret
    assert_eq!(code[15], 0xc3);
}

#[test]
fn compile_fused_moves_carry_immediate_operands() {
    let mut compiler = OptimizedCompiler::new(opt(">>>"), 16);
    compiler.compile();
    let code = &compiler.machine_code;
    assert_eq!(code[10..17], [0x49, 0x81, 0xc5, 0x03, 0x00, 0x00, 0x00]);

    let mut compiler = OptimizedCompiler::new(opt("<<"), 16);
    compiler.compile();
    let code = &compiler.machine_code;
    // -2 as a little-endian 32-bit two's-complement immediate
    assert_eq!(code[10..17], [0x49, 0x81, 0xc5, 0xfe, 0xff, 0xff, 0xff]);
}

#[test]
fn compile_set_to_zero_emits_store() {
    let mut compiler = OptimizedCompiler::new(opt("[-]"), 16);
    compiler.compile();
    let code = &compiler.machine_code;
    assert_eq!(code[10..15], [0x41, 0xc6, 0x45, 0x00, 0x00]);
    assert_eq!(code.len(), 16);
}

#[test]
fn compile_patches_loop_displacements() {
    // "[+]" keeps its loop: open at 10..21, add at 21..26, close at 26..37.
    let mut compiler = OptimizedCompiler::new(opt("[+]"), 16);
    compiler.compile();
    let code = &compiler.machine_code;
    assert_eq!(code.len(), 38);
    // cmpb $0, 0(%r13); je +16
    assert_eq!(code[10..17], [0x41, 0x80, 0x7d, 0x00, 0x00, 0x0f, 0x84]);
    assert_eq!(code[17..21], 16i32.to_le_bytes());
    // cmpb $0, 0(%r13); jne -16
    assert_eq!(code[26..33], [0x41, 0x80, 0x7d, 0x00, 0x00, 0x0f, 0x85]);
    assert_eq!(code[33..37], (-16i32).to_le_bytes());
    assert_eq!(code[37], 0xc3);
}

#[test]
fn compile_relocates_nested_loops() {
    // "[[+]]": opens at 10..21 and 21..32, add at 32..37, closes at 37..48
    // and 48..59. Inner pair spans 16 bytes, outer pair 38.
    let mut compiler = OptimizedCompiler::new(opt("[[+]]"), 16);
    compiler.compile();
    let code = &compiler.machine_code;
    assert_eq!(code.len(), 60);
    assert_eq!(code[17..21], 38i32.to_le_bytes());
    assert_eq!(code[28..32], 16i32.to_le_bytes());
    assert_eq!(code[44..48], (-16i32).to_le_bytes());
    assert_eq!(code[55..59], (-38i32).to_le_bytes());
    assert_eq!(code[59], 0xc3);
}

#[test]
fn compile_print_and_read_emit_syscall_sequences() {
    let mut compiler = OptimizedCompiler::new(opt("."), 16);
    compiler.compile();
    let code = compiler.machine_code.clone();
    assert_eq!(code.len(), 37);
    // write(1, r13, 1)
    assert_eq!(code[10..17], [0x48, 0xc7, 0xc0, 0x01, 0x00, 0x00, 0x00]);
    assert_eq!(code[34..36], [0x0f, 0x05]);

    let mut compiler = OptimizedCompiler::new(opt(","), 16);
    compiler.compile();
    let code = &compiler.machine_code;
    // read(0, r13, 1)
    assert_eq!(code[10..17], [0x48, 0xc7, 0xc0, 0x00, 0x00, 0x00, 0x00]);
    assert_eq!(code[34..36], [0x0f, 0x05]);
}
