//! From a configured command line to an argv, and from a finished child's
//! fate to the runner's own exit code. Spawning and waiting are the caller's
//! business; everything here is a pure function of its inputs.

use vstd::prelude::*;
use crate::model::seg_views;

verus! {

/// What POSIX shell word-splitting makes of a command line: its tokens, or
/// nothing when the line cannot be tokenized (an unclosed quote, a trailing
/// escape).
pub uninterp spec fn shell_tokens(s: Seq<char>) -> Option<Seq<Seq<char>>>;

/// Relies on shlex::split: it word-splits a command line by POSIX shell
/// rules as a pure function of the string, and returns None for erroneous
/// input.
#[verifier::external_body]
fn split_command(s: &str) -> (r: Option<Vec<String>>)
    ensures
        (match r {
            Some(v) => shell_tokens(s@) == Some(seg_views(v@)),
            None => shell_tokens(s@) is None,
        }),
{
    shlex::split(s)
}

/// Why a configured command line cannot be run.
#[derive(Debug, PartialEq, Eq)]
pub enum ExecError {
    /// The command line cannot be tokenized.
    Unparseable,
    /// The command line holds no token at all.
    Empty,
}

/// The argv for a selected node: the shell tokens of its configured command
/// line, followed by the trailing arguments, in order. Fails exactly when
/// the command line cannot be tokenized or tokenizes to nothing.
pub fn build_argv(command: &str, trailing: &[String]) -> (r: Result<Vec<String>, ExecError>)
    ensures
        (r is Ok <==> (shell_tokens(command@) matches Some(ts) && ts.len() > 0)),
        (match r {
            Ok(v) => shell_tokens(command@) matches Some(ts) && seg_views(v@) == ts + seg_views(
                trailing@,
            ),
            Err(e) => match e {
                ExecError::Unparseable => shell_tokens(command@) is None,
                ExecError::Empty => shell_tokens(command@) matches Some(ts) && ts.len() == 0,
            },
        }),
{
    match split_command(command) {
        None => Err(ExecError::Unparseable),
        Some(mut v) => {
            if v.len() == 0 {
                Err(ExecError::Empty)
            } else {
                let ghost base: Seq<Seq<char>> = seg_views(v@);
                let mut q: usize = 0;
                proof {
                    assert(seg_views(v@) =~= base + seg_views(trailing@.take(0)));
                }
                while q < trailing.len()
                    invariant
                        q <= trailing@.len(),
                        seg_views(v@) == base + seg_views(trailing@.take(q as int)),
                    decreases trailing@.len() - q,
                {
                    let ghost prev = v@;
                    v.push(trailing[q].clone());
                    proof {
                        assert(trailing@.take(q as int + 1).drop_last() =~= trailing@.take(
                            q as int,
                        ));
                        assert(seg_views(v@) =~= seg_views(prev).push(trailing@[q as int]@));
                        assert(seg_views(v@) =~= base + seg_views(trailing@.take(q as int + 1)));
                    }
                    q += 1;
                }
                proof {
                    assert(trailing@.take(trailing@.len() as int) =~= trailing@);
                }
                Ok(v)
            }
        },
    }
}

/// The exit code the runner reports for a finished child: the child's own
/// code when it exited; 128 plus the signal number when a signal ended it;
/// 1 when the platform reports neither.
pub fn exit_code(code: Option<i32>, signal: Option<i32>) -> (r: i32)
    requires
        (signal matches Some(s) ==> s <= i32::MAX - 128),
    ensures
        (code matches Some(c) ==> r == c),
        (code is None ==> (signal matches Some(s) ==> r == 128 + s)),
        ((code is None && signal is None) ==> r == 1),
{
    match code {
        Some(c) => c,
        None => match signal {
            Some(s) => 128 + s,
            None => 1,
        },
    }
}

} // verus!
