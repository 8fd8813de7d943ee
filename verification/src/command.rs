//! The command that a new local session runs.
use crate::text::word_views;
use portable_pty::CommandBuilder;
use vstd::prelude::*;

verus! {

/// `portable_pty::CommandBuilder`: a command line, an environment and a
/// working directory, of which this library reads and fills the command
/// line only.
#[verifier::external_type_specification]
#[verifier::external_body]
pub struct ExCommandBuilder(CommandBuilder);

/// The command line that a `CommandBuilder` holds: the program, then its
/// arguments.
pub uninterp spec fn command_argv(c: CommandBuilder) -> Seq<Seq<char>>;

/// `CommandBuilder::new`: a builder whose command line is the program
/// alone.
#[verifier::external_body]
fn new_builder(program: &str) -> (c: CommandBuilder)
    ensures
        command_argv(c) == seq![program@],
{
    CommandBuilder::new(program)
}

/// `CommandBuilder::arg`: appends one argument to the command line.  It
/// panics on a builder without a program, which the precondition excludes.
#[verifier::external_body]
fn push_arg(c: &mut CommandBuilder, arg: &str)
    requires
        command_argv(*old(c)).len() > 0,
    ensures
        command_argv(*final(c)) == command_argv(*old(c)).push(arg@),
{
    c.arg(arg)
}

/// The command to run instead of the shell: `prog[0]` with the rest of
/// `prog` as its arguments.  An empty `prog` asks for no command.
pub fn build_command(prog: &Vec<String>) -> (r: Option<CommandBuilder>)
    ensures
        match r {
            Some(c) => prog.len() > 0 && command_argv(c) == word_views(prog@),
            None => prog.len() == 0,
        },
{
    if prog.len() == 0 {
        return None;
    }
    let mut c = new_builder(prog[0].as_str());
    let mut i: usize = 1;
    while i < prog.len()
        invariant
            1 <= i <= prog.len(),
            command_argv(c) == word_views(prog@.take(i as int)),
        decreases prog.len() - i,
    {
        proof {
            assert(word_views(prog@.take(i + 1)) =~= word_views(prog@.take(i as int)).push(prog@[i as int]@));
        }
        push_arg(&mut c, prog[i].as_str());
        i += 1;
    }
    proof {
        assert(prog@.take(i as int) =~= prog@);
    }
    Some(c)
}

/// The command of a local session: the one that was asked for, or else
/// the shell with no arguments.
pub fn command_or_shell(command: Option<CommandBuilder>, shell: &str) -> (c: CommandBuilder)
    ensures
        command_argv(c) == match command {
            Some(given) => command_argv(given),
            None => seq![shell@],
        },
{
    match command {
        Some(given) => given,
        None => new_builder(shell),
    }
}

} // verus!
