//! The bridge to the CLI-argument library. The clap command value is opaque
//! here, so its shape is carried by a name, `clap_model`: each builder
//! wrapper states what its one clap call does to that shape, the verified
//! mirror `clap_of_grammar` then proves the built command's shape matches a
//! `GrammarNode`, and `build_clap_from_root` proves the command handed to
//! clap matches a grammar that corresponds (`gm`) to the tree — the same
//! correspondence `build_grammar` is proved to establish.

use vstd::prelude::*;
use crate::grammar::{build_grammar, gm, GrammarNode};
use crate::model::{opt_text, CmdNode};

verus! {

/// clap's command builder, opaque here.
#[verifier::external_type_specification]
#[verifier::external_body]
pub struct ExClapCommand(clap::Command);

/// clap's parse result, opaque here.
#[verifier::external_type_specification]
#[verifier::external_body]
pub struct ExArgMatches(clap::ArgMatches);

/// The shape of a built clap command, as far as this library sets it: its
/// name, its one-line description, whether a trailing `args` capture was
/// attached, the two required-selection flags, and its subcommands in
/// insertion order.
pub struct GrammarShape {
    pub name: Seq<char>,
    pub about: Option<Seq<char>>,
    pub takes_trailing: bool,
    pub subcommand_required: bool,
    pub arg_required_else_help: bool,
    pub children: Seq<GrammarShape>,
}

/// The shape of a clap command: a function of the command value alone,
/// pinned down by the builder wrappers below.
pub uninterp spec fn clap_model(c: clap::Command) -> GrammarShape;

/// The shape matches a grammar node: same name and description, the
/// trailing capture exactly when the node takes trailing arguments, both
/// required-selection flags exactly when it requires a sub-selection, and
/// matching children position by position.
pub open spec fn shape_matches(s: GrammarShape, g: GrammarNode) -> bool
    decreases g,
{
    &&& s.name == g.name@
    &&& s.about == opt_text(g.about)
    &&& s.takes_trailing == g.takes_trailing
    &&& s.subcommand_required == g.requires_sub
    &&& s.arg_required_else_help == g.requires_sub
    &&& s.children.len() == g.children@.len()
    &&& forall|i: int|
        0 <= i < s.children.len() ==> shape_matches(#[trigger] s.children[i], g.children@[i])
}

/// Relies on clap::Command::new: a fresh command with this name and nothing
/// else set.
#[verifier::external_body]
fn cmd_new(name: &String) -> (c: clap::Command)
    ensures
        (clap_model(c) == GrammarShape {
            name: name@,
            about: None,
            takes_trailing: false,
            subcommand_required: false,
            arg_required_else_help: false,
            children: Seq::empty(),
        }),
{
    clap::Command::new(name.clone())
}

/// Relies on clap::Command::about: sets the one-line description shown in
/// help output and changes nothing else.
#[verifier::external_body]
fn cmd_about(c: clap::Command, text: &String) -> (r: clap::Command)
    ensures
        (clap_model(r) == GrammarShape { about: Some(text@), ..clap_model(c) }),
{
    c.about(text.clone())
}

/// Relies on clap::Command::subcommand: appends one subcommand and changes
/// nothing else.
#[verifier::external_body]
fn cmd_subcommand(c: clap::Command, sub: clap::Command) -> (r: clap::Command)
    ensures
        (clap_model(r) == GrammarShape {
            children: clap_model(c).children.push(clap_model(sub)),
            ..clap_model(c)
        }),
{
    c.subcommand(sub)
}

/// Relies on clap::Arg::trailing_var_arg and num_args: attaches an `args`
/// positional capturing zero or more trailing tokens verbatim, and changes
/// nothing else.
#[verifier::external_body]
fn cmd_trailing_args(c: clap::Command) -> (r: clap::Command)
    ensures
        (clap_model(r) == GrammarShape { takes_trailing: true, ..clap_model(c) }),
{
    c.arg(clap::Arg::new("args").trailing_var_arg(true).num_args(0..))
}

/// Relies on clap::Command::subcommand_required: selecting this command
/// without a subcommand is rejected; nothing else changes.
#[verifier::external_body]
fn cmd_subcommand_required(c: clap::Command) -> (r: clap::Command)
    ensures
        (clap_model(r) == GrammarShape { subcommand_required: true, ..clap_model(c) }),
{
    c.subcommand_required(true)
}

/// Relies on clap::Command::arg_required_else_help: a bare selection shows
/// help instead; nothing else changes.
#[verifier::external_body]
fn cmd_arg_required_else_help(c: clap::Command) -> (r: clap::Command)
    ensures
        (clap_model(r) == GrammarShape { arg_required_else_help: true, ..clap_model(c) }),
{
    c.arg_required_else_help(true)
}

/// Relies on clap::ArgMatches::subcommand: walks the chain of chosen
/// subcommands and hands back their names, outermost first. The chain lives
/// inside clap's opaque parse result, so the walk itself cannot be a
/// verified loop; it only copies names out, one per level.
#[verifier::external_body]
pub fn subcommand_path(m: &clap::ArgMatches) -> Vec<String> {
    let mut p = Vec::new();
    let mut cur = m;
    while let Some((name, sub)) = cur.subcommand() {
        p.push(name.to_string());
        cur = sub;
    }
    p
}

/// Mirror one grammar node into a clap command, child by child in the
/// grammar's own (sorted) order. The trailing and required-selection
/// decisions are not re-made here: they are read off the grammar node they
/// were proved on.
fn clap_of_grammar(g: &GrammarNode) -> (c: clap::Command)
    ensures
        shape_matches(clap_model(c), *g),
    decreases *g,
{
    let mut c = cmd_new(&g.name);
    match &g.about {
        Some(d) => {
            c = cmd_about(c, d);
        },
        None => {},
    }
    let mut k: usize = 0;
    while k < g.children.len()
        invariant
            k <= g.children@.len(),
            clap_model(c).name == g.name@,
            clap_model(c).about == opt_text(g.about),
            !clap_model(c).takes_trailing,
            !clap_model(c).subcommand_required,
            !clap_model(c).arg_required_else_help,
            clap_model(c).children.len() == k,
            forall|q: int|
                0 <= q < k ==> shape_matches(
                    #[trigger] clap_model(c).children[q],
                    g.children@[q],
                ),
        decreases g.children@.len() - k,
    {
        proof {
            assert(decreases_to!(*g => g.children));
            assert(decreases_to!(g.children => g.children@));
            assert(decreases_to!(g.children@ => g.children@[k as int]));
        }
        let sub = clap_of_grammar(&g.children[k]);
        c = cmd_subcommand(c, sub);
        k += 1;
    }
    if g.takes_trailing {
        c = cmd_trailing_args(c);
    }
    if g.requires_sub {
        c = cmd_subcommand_required(c);
        c = cmd_arg_required_else_help(c);
    }
    c
}

/// Mirror the command tree into a clap command: the grammar is built with
/// its proof of correspondence to the tree, then copied shape for shape
/// into clap, so the command clap parses with matches a grammar that
/// corresponds to the tree.
pub fn build_clap_from_root(root: &CmdNode) -> (c: clap::Command)
    ensures
        (exists|g: GrammarNode| gm(g, *root) && shape_matches(clap_model(c), g)),
{
    let g = build_grammar(root);
    let c = clap_of_grammar(&g);
    proof {
        assert(gm(g, *root) && shape_matches(clap_model(c), g));
    }
    c
}

} // verus!
