//! The command line: what a run of the program does.

use crate::text;
use vstd::prelude::*;
use vstd::string::*;

verus! {

/// What a run does.
#[derive(Debug)]
pub enum Mode {
    /// Serve over HTTP.
    Serve,
    /// Answer line by line.
    Interactive,
    /// Answer one prompt.
    OneShot(String),
    /// Nothing was asked for: say what can be.
    Usage,
}

/// Chooses what a run does: serving comes first, then the interactive mode, then
/// a prompt.
pub fn select_mode(serve: bool, interactive: bool, prompt: Option<String>) -> (m: Mode)
    ensures
        m == if serve {
            Mode::Serve
        } else if interactive {
            Mode::Interactive
        } else {
            match prompt {
                Some(p) => Mode::OneShot(p),
                None => Mode::Usage,
            }
        },
{
    if serve {
        Mode::Serve
    } else if interactive {
        Mode::Interactive
    } else {
        match prompt {
            Some(p) => Mode::OneShot(p),
            None => Mode::Usage,
        }
    }
}

/// Whether a line of input is skipped because it holds only whitespace.
pub fn is_blank(line: &str) -> (r: bool)
    ensures
        r == (text::trim(line@).len() == 0),
{
    text::str_trim(line).is_empty()
}

}
