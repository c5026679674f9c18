use vstd::prelude::*;

use crate::select::SelectionMode;

verus! {

/// Lines selected when no count is given.
pub const DEFAULT_LINES: i32 = 10;

/// A rejected combination of options.
#[derive(Clone, Copy, Debug, PartialEq, Eq, Structural)]
pub enum ArgumentError {
    /// A byte count and a line count were both given.
    BytesWithLines,
    /// Quiet and verbose were both asked for.
    QuietWithVerbose,
}

/// One validated invocation: the sources in order, one selection mode, and
/// whether headers are wanted when there are several sources.
#[derive(Debug)]
pub struct Config {
    pub files: Vec<String>,
    pub mode: SelectionMode,
    pub headers: bool,
}

/// The source read when none is named: standard input.
pub open spec fn stdin_name() -> Seq<char> {
    seq!['-']
}

impl Config {
    /// Validates the options as given on the command line: `lines` and
    /// `bytes` are the counts given, if any; `quiet` and `verbose` whether
    /// those flags were given.
    pub fn new(files: Vec<String>, lines: Option<i32>, bytes: Option<i32>, quiet: bool, verbose: bool)
        -> (r: Result<Config, ArgumentError>)
        ensures
            lines.is_some() && bytes.is_some() ==> r == Err::<Config, ArgumentError>(ArgumentError::BytesWithLines),
            !(lines.is_some() && bytes.is_some()) && quiet && verbose
                ==> r == Err::<Config, ArgumentError>(ArgumentError::QuietWithVerbose),
            !(lines.is_some() && bytes.is_some()) && !(quiet && verbose) ==> r.is_ok(),
            r matches Ok(c) ==> {
                &&& c.mode == (match bytes {
                    Some(b) => SelectionMode::Bytes(b),
                    None => SelectionMode::Lines(
                        match lines {
                            Some(n) => n,
                            None => DEFAULT_LINES,
                        },
                    ),
                })
                &&& c.headers == !quiet
                &&& files@.len() == 0 ==> c.files@.len() == 1 && c.files@[0]@ == stdin_name()
                &&& files@.len() > 0 ==> c.files@ == files@
            },
    {
        if lines.is_some() && bytes.is_some() {
            return Err(ArgumentError::BytesWithLines);
        }
        if quiet && verbose {
            return Err(ArgumentError::QuietWithVerbose);
        }
        let mode = match bytes {
            Some(b) => SelectionMode::Bytes(b),
            None => SelectionMode::Lines(
                match lines {
                    Some(n) => n,
                    None => DEFAULT_LINES,
                },
            ),
        };
        let files = if files.len() == 0 {
            let mut v: Vec<String> = Vec::new();
            let name = String::from_str("-");
            proof {
                reveal_strlit("-");
                assert(name@ =~= stdin_name());
            }
            v.push(name);
            v
        } else {
            files
        };
        Ok(Config { files, mode, headers: !quiet })
    }
}

} // verus!
