use vstd::prelude::*;
use crate::command::Command;

verus! {

/// One coarse instruction of the optimized stream: pointer moves and cell
/// arithmetic carry a folded payload, the clear-cell idiom has its own
/// instruction, and the remaining commands are kept verbatim.
#[derive(Clone, Copy, PartialEq, Eq, Structural, Debug)]
pub enum OptimizedCommand {
    Move(i32),
    Add(u8),
    SetToZero,
    Print,
    Read,
    JumpForward,
    JumpBackwards,
}

/// The instruction a single primitive command translates to before any
/// fusion: a decrement is an addition of 255, since the cell is modular.
pub open spec fn opt_of_cmd(c: Command) -> OptimizedCommand {
    match c {
        Command::MoveRight => OptimizedCommand::Move(1i32),
        Command::MoveLeft => OptimizedCommand::Move(-1i32),
        Command::Increment => OptimizedCommand::Add(1u8),
        Command::Decrement => OptimizedCommand::Add(255u8),
        Command::Print => OptimizedCommand::Print,
        Command::Read => OptimizedCommand::Read,
        Command::JumpForward => OptimizedCommand::JumpForward,
        Command::JumpBackwards => OptimizedCommand::JumpBackwards,
    }
}

/// A 32-bit value as the 4 bytes of its little-endian operand encoding.
pub open spec fn le4(x: u32) -> Seq<u8> {
    seq![
        (x & 0xff) as u8,
        ((x >> 8) & 0xff) as u8,
        ((x >> 16) & 0xff) as u8,
        ((x >> 24) & 0xff) as u8,
    ]
}

/// A 64-bit value as the 8 bytes of its little-endian operand encoding.
pub open spec fn le8(x: u64) -> Seq<u8> {
    seq![
        (x & 0xff) as u8,
        ((x >> 8) & 0xff) as u8,
        ((x >> 16) & 0xff) as u8,
        ((x >> 24) & 0xff) as u8,
        ((x >> 32) & 0xff) as u8,
        ((x >> 40) & 0xff) as u8,
        ((x >> 48) & 0xff) as u8,
        ((x >> 56) & 0xff) as u8,
    ]
}

/// Emits a 32-bit little-endian operand.
pub fn emit_le4(out: &mut Vec<u8>, x: u32)
    ensures
        final(out)@ == old(out)@ + le4(x),
{
    proof {
        assert(x & 0xff < 256 && (x >> 8) & 0xff < 256 && (x >> 16) & 0xff < 256 && (x >> 24)
            & 0xff < 256) by (bit_vector);
    }
    out.push((x & 0xff) as u8);
    out.push(((x >> 8) & 0xff) as u8);
    out.push(((x >> 16) & 0xff) as u8);
    out.push(((x >> 24) & 0xff) as u8);
    proof {
        assert(out@ =~= old(out)@ + le4(x));
    }
}

/// Emits a 64-bit little-endian operand.
pub fn emit_le8(out: &mut Vec<u8>, x: u64)
    ensures
        final(out)@ == old(out)@ + le8(x),
{
    proof {
        assert(x & 0xff < 256 && (x >> 8) & 0xff < 256 && (x >> 16) & 0xff < 256 && (x >> 24)
            & 0xff < 256 && (x >> 32) & 0xff < 256 && (x >> 40) & 0xff < 256 && (x >> 48) & 0xff
            < 256 && (x >> 56) & 0xff < 256) by (bit_vector);
    }
    out.push((x & 0xff) as u8);
    out.push(((x >> 8) & 0xff) as u8);
    out.push(((x >> 16) & 0xff) as u8);
    out.push(((x >> 24) & 0xff) as u8);
    out.push(((x >> 32) & 0xff) as u8);
    out.push(((x >> 40) & 0xff) as u8);
    out.push(((x >> 48) & 0xff) as u8);
    out.push(((x >> 56) & 0xff) as u8);
    proof {
        assert(out@ =~= old(out)@ + le8(x));
    }
}

/// The two's-complement bit pattern of a signed 32-bit value, as written
/// into a 4-byte immediate operand.
pub open spec fn i32_bits(n: i32) -> u32 {
    if n >= 0 {
        n as u32
    } else {
        (n + 0x1_0000_0000) as u32
    }
}

/// The machine-code encoding of one instruction, for the one 64-bit target
/// architecture. The reserved register r13 holds the tape's base address for
/// the whole generated procedure. Loop instructions compare the cell with
/// zero and branch through a 4-byte relative displacement that is emitted as
/// zero and patched once the matching bracket is known.
pub open spec fn encode_spec(c: OptimizedCommand) -> Seq<u8> {
    match c {
        // add imm32 to r13
        OptimizedCommand::Move(n) => seq![0x49u8, 0x81u8, 0xc5u8] + le4(i32_bits(n)),
        // add imm8 to the byte at offset 0 from r13
        OptimizedCommand::Add(n) => seq![0x41u8, 0x80u8, 0x45u8, 0x00u8, n],
        // store imm8 zero to the byte at offset 0 from r13
        OptimizedCommand::SetToZero => seq![0x41u8, 0xc6u8, 0x45u8, 0x00u8, 0x00u8],
        // write(1, r13, 1) system call
        OptimizedCommand::Print => seq![
            0x48u8, 0xc7u8, 0xc0u8, 0x01u8, 0x00u8, 0x00u8, 0x00u8,
            0x48u8, 0xc7u8, 0xc7u8, 0x01u8, 0x00u8, 0x00u8, 0x00u8,
            0x4cu8, 0x89u8, 0xeeu8,
            0x48u8, 0xc7u8, 0xc2u8, 0x01u8, 0x00u8, 0x00u8, 0x00u8,
            0x0fu8, 0x05u8,
        ],
        // read(0, r13, 1) system call
        OptimizedCommand::Read => seq![
            0x48u8, 0xc7u8, 0xc0u8, 0x00u8, 0x00u8, 0x00u8, 0x00u8,
            0x48u8, 0xc7u8, 0xc7u8, 0x00u8, 0x00u8, 0x00u8, 0x00u8,
            0x4cu8, 0x89u8, 0xeeu8,
            0x48u8, 0xc7u8, 0xc2u8, 0x01u8, 0x00u8, 0x00u8, 0x00u8,
            0x0fu8, 0x05u8,
        ],
        // compare cell with zero, branch forward if equal (displacement patched later)
        OptimizedCommand::JumpForward => seq![
            0x41u8, 0x80u8, 0x7du8, 0x00u8, 0x00u8,
            0x0fu8, 0x84u8, 0x00u8, 0x00u8, 0x00u8, 0x00u8,
        ],
        // compare cell with zero, branch backwards if not equal (displacement patched later)
        OptimizedCommand::JumpBackwards => seq![
            0x41u8, 0x80u8, 0x7du8, 0x00u8, 0x00u8,
            0x0fu8, 0x85u8, 0x00u8, 0x00u8, 0x00u8, 0x00u8,
        ],
    }
}

impl OptimizedCommand {
    /// Translates one primitive command, before any fusion.
    pub fn from(command: &Command) -> (r: OptimizedCommand)
        ensures
            r == opt_of_cmd(*command),
    {
        match command {
            Command::MoveRight => OptimizedCommand::Move(1),
            Command::MoveLeft => OptimizedCommand::Move(-1),
            Command::Increment => OptimizedCommand::Add(1),
            Command::Decrement => OptimizedCommand::Add(255),
            Command::Print => OptimizedCommand::Print,
            Command::Read => OptimizedCommand::Read,
            Command::JumpForward => OptimizedCommand::JumpForward,
            Command::JumpBackwards => OptimizedCommand::JumpBackwards,
        }
    }

    /// Emits the machine code for this instruction.
    pub fn encode(&self) -> (r: Vec<u8>)
        ensures
            r@ == encode_spec(*self),
    {
        let mut v: Vec<u8> = Vec::new();
        match *self {
            OptimizedCommand::Move(n) => {
                v.push(0x49);
                v.push(0x81);
                v.push(0xc5);
                let bits: u32 = if n >= 0 {
                    n as u32
                } else {
                    ((n as i64) + 0x1_0000_0000i64) as u32
                };
                assert(bits == i32_bits(n));
                emit_le4(&mut v, bits);
                assert(v@ =~= encode_spec(*self));
            },
            OptimizedCommand::Add(n) => {
                v.push(0x41);
                v.push(0x80);
                v.push(0x45);
                v.push(0x00);
                v.push(n);
                assert(v@ =~= encode_spec(*self));
            },
            OptimizedCommand::SetToZero => {
                v.push(0x41);
                v.push(0xc6);
                v.push(0x45);
                v.push(0x00);
                v.push(0x00);
                assert(v@ =~= encode_spec(*self));
            },
            OptimizedCommand::Print => {
                v.push(0x48);
                v.push(0xc7);
                v.push(0xc0);
                v.push(0x01);
                v.push(0x00);
                v.push(0x00);
                v.push(0x00);
                v.push(0x48);
                v.push(0xc7);
                v.push(0xc7);
                v.push(0x01);
                v.push(0x00);
                v.push(0x00);
                v.push(0x00);
                v.push(0x4c);
                v.push(0x89);
                v.push(0xee);
                v.push(0x48);
                v.push(0xc7);
                v.push(0xc2);
                v.push(0x01);
                v.push(0x00);
                v.push(0x00);
                v.push(0x00);
                v.push(0x0f);
                v.push(0x05);
                assert(v@ =~= encode_spec(*self));
            },
            OptimizedCommand::Read => {
                v.push(0x48);
                v.push(0xc7);
                v.push(0xc0);
                v.push(0x00);
                v.push(0x00);
                v.push(0x00);
                v.push(0x00);
                v.push(0x48);
                v.push(0xc7);
                v.push(0xc7);
                v.push(0x00);
                v.push(0x00);
                v.push(0x00);
                v.push(0x00);
                v.push(0x4c);
                v.push(0x89);
                v.push(0xee);
                v.push(0x48);
                v.push(0xc7);
                v.push(0xc2);
                v.push(0x01);
                v.push(0x00);
                v.push(0x00);
                v.push(0x00);
                v.push(0x0f);
                v.push(0x05);
                assert(v@ =~= encode_spec(*self));
            },
            OptimizedCommand::JumpForward => {
                v.push(0x41);
                v.push(0x80);
                v.push(0x7d);
                v.push(0x00);
                v.push(0x00);
                v.push(0x0f);
                v.push(0x84);
                v.push(0x00);
                v.push(0x00);
                v.push(0x00);
                v.push(0x00);
                assert(v@ =~= encode_spec(*self));
            },
            OptimizedCommand::JumpBackwards => {
                v.push(0x41);
                v.push(0x80);
                v.push(0x7d);
                v.push(0x00);
                v.push(0x00);
                v.push(0x0f);
                v.push(0x85);
                v.push(0x00);
                v.push(0x00);
                v.push(0x00);
                v.push(0x00);
                assert(v@ =~= encode_spec(*self));
            },
        }
        v
    }
}

} // verus!
