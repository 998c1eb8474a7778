use vstd::prelude::*;
use crate::command::{command_of_char, Command};

verus! {

/// What parsing a text yields: the commands its characters denote, in text
/// order, with every character that denotes no command left out.
pub open spec fn parse_spec(s: Seq<char>) -> Seq<Command>
    decreases s.len(),
{
    if s.len() == 0 {
        Seq::empty()
    } else {
        let rest = parse_spec(s.drop_last());
        match command_of_char(s.last()) {
            Some(cmd) => rest.push(cmd),
            None => rest,
        }
    }
}

/// Whether a character denotes a command.
pub open spec fn is_command_char(c: char) -> bool {
    command_of_char(c) is Some
}

/// Parser filtering: a text yields the same command stream as the text with
/// all non-command characters removed. In particular a text containing no
/// command characters yields the empty stream.
pub proof fn lemma_parse_filters_comments(s: Seq<char>)
    ensures
        parse_spec(s) == parse_spec(s.filter(|c: char| is_command_char(c))),
    decreases s.len(),
{
    reveal(Seq::filter);
    if s.len() == 0 {
        assert(s.filter(|c: char| is_command_char(c)) == s);
    } else {
        lemma_parse_filters_comments(s.drop_last());
        let f = s.filter(|c: char| is_command_char(c));
        if is_command_char(s.last()) {
            assert(f == s.drop_last().filter(|c: char| is_command_char(c)).push(s.last()));
            assert(f.drop_last() == s.drop_last().filter(|c: char| is_command_char(c)));
            assert(f.last() == s.last());
        } else {
            assert(f == s.drop_last().filter(|c: char| is_command_char(c)));
            if f.len() > 0 {
                assert(parse_spec(f) == parse_spec(f));
            }
        }
    }
}

/// An ordered, immutable stream of primitive commands, parsed once from
/// source text.
pub struct Program {
    pub commands: Vec<Command>,
}

impl View for Program {
    type V = Seq<Command>;

    open spec fn view(&self) -> Seq<Command> {
        self.commands@
    }
}

impl Program {
    /// Parses source text: each recognized character becomes its command,
    /// every other character is discarded as a comment. No error path.
    pub fn from(input: &str) -> (r: Program)
        ensures
            r@ == parse_spec(input@),
    {
        let n = input.unicode_len();
        let mut commands: Vec<Command> = Vec::new();
        let mut i: usize = 0;
        while i < n
            invariant
                i <= n,
                n == input@.len(),
                commands@ == parse_spec(input@.take(i as int)),
            decreases n - i,
        {
            let c = input.get_char(i);
            proof {
                assert(input@.take(i + 1).drop_last() =~= input@.take(i as int));
                assert(input@.take(i + 1).last() == input@[i as int]);
            }
            match Command::try_from(c) {
                Ok(cmd) => commands.push(cmd),
                Err(_) => {},
            }
            i += 1;
        }
        proof {
            assert(input@.take(n as int) =~= input@);
        }
        Program { commands }
    }

    /// The number of commands in the stream.
    pub fn len(&self) -> (r: usize)
        ensures
            r == self@.len(),
    {
        self.commands.len()
    }
}

} // verus!
