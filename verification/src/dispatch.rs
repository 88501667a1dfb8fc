//! The dispatcher's decision: given the tree and a selection the grammar
//! accepted, either run the node's command or show contextual help.

use vstd::prelude::*;
use crate::model::{find_in, find_node, seg_views, CmdNode};

verus! {

/// What the process should do for an accepted selection.
#[derive(Debug, PartialEq, Eq)]
pub enum Action {
    /// Run this command line with these trailing arguments appended, and
    /// exit with the child's resolved code.
    Run { command: String, trailing: Vec<String> },
    /// Show help for the node at this path and exit with the usage-error
    /// status; the empty path means root help.
    Help { path: Vec<String> },
}

/// Element-by-element copy of a string slice.
fn clone_all(xs: &[String]) -> (r: Vec<String>)
    ensures
        r@ == xs@,
{
    let mut r: Vec<String> = Vec::new();
    let mut i: usize = 0;
    while i < xs.len()
        invariant
            i <= xs@.len(),
            r@ == xs@.take(i as int),
        decreases xs@.len() - i,
    {
        r.push(xs[i].clone());
        proof {
            assert(r@ =~= xs@.take(i as int + 1));
        }
        i += 1;
    }
    proof {
        assert(xs@.take(xs@.len() as int) =~= xs@);
    }
    r
}

/// Decide what to do for the selection `path` with `trailing` captured
/// after it: run the selected node's command when it has one, show the
/// node's help when it has none, and fall back to root help when the path
/// resolves to no node at all (the defensive case; an accepted selection
/// always resolves).
pub fn dispatch(root: &CmdNode, path: &[String], trailing: &[String]) -> (a: Action)
    ensures
        (match find_in(*root, seg_views(path@)) {
            Some(n) => match n.cmd {
                Some(c) => a matches Action::Run { command, trailing: tr } && command@ == c@
                    && tr@ == trailing@,
                None => a matches Action::Help { path: p } && p@ == path@,
            },
            None => a matches Action::Help { path: p } && p@.len() == 0,
        }),
{
    match find_node(root, path) {
        Some(n) => match &n.cmd {
            Some(c) => Action::Run { command: c.clone(), trailing: clone_all(trailing) },
            None => Action::Help { path: clone_all(path) },
        },
        None => Action::Help { path: Vec::new() },
    }
}

} // verus!
