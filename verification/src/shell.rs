//! Which shell a session runs where no command is given.
use vstd::prelude::*;
use vstd::utf8::{decode_utf8, valid_utf8};

verus! {

/// Why no shell could be determined.
#[derive(Clone, Copy, Debug, PartialEq, Eq, Structural)]
pub enum ShellError {
    /// The shell of the password database entry is not valid UTF-8.
    NotUtf8,
}

/// The shell to run: the one that the environment names; else the one of
/// the user's entry in the password database, which has to be valid UTF-8;
/// else, where the user has no entry, `/bin/sh`.
pub open spec fn shell_choice(env_shell: Option<Seq<char>>, passwd_shell: Option<Seq<u8>>) -> Result<
    Seq<char>,
    ShellError,
> {
    match env_shell {
        Some(shell) => Ok(shell),
        None => match passwd_shell {
            None => Ok("/bin/sh"@),
            Some(bytes) => if valid_utf8(bytes) {
                Ok(decode_utf8(bytes))
            } else {
                Err(ShellError::NotUtf8)
            },
        },
    }
}

/// Determines which shell to run.  `env_shell` is the value of the
/// environment's `SHELL`, if it is set; `passwd_shell` holds the bytes of
/// the shell of the user's entry in the password database, if the user has
/// an entry.
pub fn get_shell(env_shell: Option<String>, passwd_shell: Option<Vec<u8>>) -> (r: Result<String, ShellError>)
    ensures
        match (r, shell_choice(
            match env_shell {
                Some(s) => Some(s@),
                None => None,
            },
            match passwd_shell {
                Some(b) => Some(b@),
                None => None,
            },
        )) {
            (Ok(shell), Ok(expected)) => shell@ == expected,
            (Err(e), Err(expected)) => e == expected,
            _ => false,
        },
{
    match env_shell {
        Some(shell) => Ok(shell),
        None => match passwd_shell {
            None => Ok("/bin/sh".to_owned()),
            Some(bytes) => match String::from_utf8(bytes) {
                Ok(shell) => Ok(shell),
                Err(_) => Err(ShellError::NotUtf8),
            },
        },
    }
}

} // verus!
