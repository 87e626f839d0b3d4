//! What an invocation asks for, and the lines that answer a request for help
//! or for the version.

use vstd::prelude::*;
use vstd::string::StringExecFns;
use crate::paths::{lemma_segments_nonempty, segments};
use crate::text::{chars_of, push_chars};

verus! {

/// What an invocation asks for.
#[derive(Debug)]
pub enum Command {
    /// Print the usage text and end well.
    Help,
    /// Print the version line and end well.
    Version,
    /// No path was given: print the usage text and end with a failure.
    Usage,
    /// Scan the tree under `root`.
    Run { root: String, dedup: bool, verbose: bool },
}

/// What the flags and the free arguments of an invocation ask for. A request
/// for help comes first, then one for the version; without a free argument the
/// invocation is refused; else the first free argument is the root.
pub fn decide(help: bool, version: bool, dedup: bool, verbose: bool, free: &Vec<String>) -> (r:
    Command)
    ensures
        help ==> r is Help,
        !help && version ==> r is Version,
        !help && !version && free.len() == 0 ==> r is Usage,
        !help && !version && free.len() > 0 ==> (match r {
            Command::Run { root, dedup: d, verbose: v } => root@ == free[0]@ && d == dedup && v
                == verbose,
            _ => false,
        }),
{
    if help {
        Command::Help
    } else if version {
        Command::Version
    } else if free.len() == 0 {
        Command::Usage
    } else {
        Command::Run { root: free[0].clone(), dedup, verbose }
    }
}

/// The status that the process ends with after a command that ends it at once.
pub fn exit_status(command: &Command) -> (r: Option<i32>)
    ensures
        command is Help ==> r == Some(0i32),
        command is Version ==> r == Some(0i32),
        command is Usage ==> r == Some(-1i32),
        command is Run ==> r is None,
{
    match command {
        Command::Help => Some(0),
        Command::Version => Some(0),
        Command::Usage => Some(-1),
        Command::Run { .. } => None,
    }
}

/// The name of the program: what follows the last `/` of the path it was
/// started by.
pub fn program_name(arg0: &str) -> (r: String)
    ensures
        r@ == segments(arg0@).last(),
{
    let full = chars_of(arg0);
    let mut cur: Vec<char> = Vec::new();
    let mut i: usize = 0;
    assert(full@.take(0) == Seq::<char>::empty());
    while i < full.len()
        invariant
            i <= full.len(),
            cur@ == segments(full@.take(i as int)).last(),
        decreases full.len() - i,
    {
        let c = full[i];
        proof {
            let before = full@.take(i as int);
            lemma_segments_nonempty(before);
            assert(full@.take(i + 1).drop_last() == before);
            assert(full@.take(i + 1).last() == c);
        }
        if c == '/' {
            cur = Vec::new();
        } else {
            cur.push(c);
        }
        i += 1;
    }
    assert(full@.take(full.len() as int) == full@);
    let mut out = String::new();
    push_chars(&mut out, &cur);
    out
}

/// The first line of the usage text.
pub fn usage(program: &str) -> (r: String)
    ensures
        r@ == "Usage: "@ + program@ + " [options] PATH"@,
{
    String::from_str("Usage: ").concat(program).concat(" [options] PATH")
}

/// The version of the program.
pub fn release() -> (r: &'static str)
    ensures
        r@ == "0.2.0"@,
{
    "0.2.0"
}

/// The version line.
pub fn version(program: &str) -> (r: String)
    ensures
        r@ == program@ + " - "@ + "0.2.0"@,
{
    String::from_str(program).concat(" - ").concat(release())
}

} // verus!
