use vstd::prelude::*;
use crate::brackets::LoopRole;

verus! {

/// One of the eight primitive commands of the language.
#[derive(Clone, Copy, PartialEq, Eq, Structural, Debug)]
pub enum Command {
    MoveRight,
    MoveLeft,
    Increment,
    Decrement,
    Print,
    Read,
    JumpForward,
    JumpBackwards,
}

/// The fixed character table: which command, if any, a character denotes.
/// Characters outside the table denote no command and act as comments.
pub open spec fn command_of_char(c: char) -> Option<Command> {
    match c {
        '>' => Some(Command::MoveRight),
        '<' => Some(Command::MoveLeft),
        '+' => Some(Command::Increment),
        '-' => Some(Command::Decrement),
        '.' => Some(Command::Print),
        ',' => Some(Command::Read),
        '[' => Some(Command::JumpForward),
        ']' => Some(Command::JumpBackwards),
        _ => None,
    }
}

/// The loop role of one primitive command.
pub open spec fn role_of_cmd(c: Command) -> LoopRole {
    match c {
        Command::JumpForward => LoopRole::Open,
        Command::JumpBackwards => LoopRole::Close,
        _ => LoopRole::Other,
    }
}

/// The loop roles of a whole command stream.
pub open spec fn roles_of_cmd(cmds: Seq<Command>) -> Seq<LoopRole> {
    cmds.map_values(|c: Command| role_of_cmd(c))
}

impl Command {
    /// Maps a character to the command it denotes, or hands the character
    /// back when it denotes none.
    pub fn try_from(c: char) -> (r: Result<Command, char>)
        ensures
            match command_of_char(c) {
                Some(cmd) => r == Ok::<Command, char>(cmd),
                None => r == Err::<Command, char>(c),
            },
    {
        match c {
            '>' => Ok(Command::MoveRight),
            '<' => Ok(Command::MoveLeft),
            '+' => Ok(Command::Increment),
            '-' => Ok(Command::Decrement),
            '.' => Ok(Command::Print),
            ',' => Ok(Command::Read),
            '[' => Ok(Command::JumpForward),
            ']' => Ok(Command::JumpBackwards),
            _ => Err(c),
        }
    }
}

} // verus!
