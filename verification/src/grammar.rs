//! The interactive CLI grammar derived from a command tree.
//!
//! A grammar node mirrors one tree node: children appear in sorted name
//! order, a node with a command accepts trailing pass-through arguments, and
//! a command-less node with children requires a sub-selection. The matcher
//! resolves an argument sequence against the grammar, either to an accepted
//! selection (a path plus captured trailing tokens) or to a usage error
//! carrying the deepest matched path, whose help should be shown.

use vstd::prelude::*;
use crate::model::{find_in, opt_text, seg_views, CmdNode};
use crate::order::{lex_le, sorted_names, sorted_order};

verus! {

/// One node of the generated grammar.
#[derive(Debug, PartialEq, Eq)]
pub struct GrammarNode {
    pub name: String,
    pub about: Option<String>,
    pub takes_trailing: bool,
    pub requires_sub: bool,
    pub children: Vec<GrammarNode>,
}

/// Grammar children are in nondecreasing name order.
pub open spec fn sorted_gnames(s: Seq<GrammarNode>) -> bool {
    forall|k1: int, k2: int|
        0 <= k1 < k2 < s.len() ==> lex_le((#[trigger] s[k1]).name@, (#[trigger] s[k2]).name@)
}

/// Some grammar child in `s` is named `name`.
pub open spec fn has_gname(s: Seq<GrammarNode>, name: Seq<char>) -> bool {
    exists|i: int| 0 <= i < s.len() && (#[trigger] s[i]).name@ == name
}

/// `gc` corresponds to some node of `ts`.
pub open spec fn gm_some(gc: GrammarNode, ts: Seq<CmdNode>) -> bool
    decreases ts,
{
    exists|j: int| 0 <= j < ts.len() && gm(gc, #[trigger] ts[j])
}

/// The grammar node `g` corresponds to the tree node `t`: same name and
/// description, trailing-argument capture exactly when `t` is runnable, a
/// required sub-selection exactly when `t` is a pure namespace with
/// children, and children that correspond one-to-one with the children of
/// `t`, in sorted name order.
pub open spec fn gm(g: GrammarNode, t: CmdNode) -> bool
    decreases t,
{
    &&& g.name@ == t.name@
    &&& opt_text(g.about) == opt_text(t.description)
    &&& g.takes_trailing == (t.cmd is Some)
    &&& g.requires_sub == (t.cmd is None && t.children@.len() > 0)
    &&& g.children@.len() == t.children@.len()
    &&& sorted_gnames(g.children@)
    &&& forall|i: int| 0 <= i < g.children@.len() ==> gm_some(#[trigger] g.children@[i], t.children@)
    &&& forall|j: int|
        0 <= j < t.children@.len() ==> has_gname(g.children@, (#[trigger] t.children@[j]).name@)
}

/// Build the grammar for the tree rooted at `t`: children are emitted in
/// sorted name order, so help text is deterministic whatever order the
/// configuration supplied.
pub fn build_grammar(t: &CmdNode) -> (g: GrammarNode)
    ensures
        gm(g, *t),
    decreases *t,
{
    let order = sorted_order(&t.children);
    let mut kids: Vec<GrammarNode> = Vec::new();
    let mut k: usize = 0;
    while k < order.len()
        invariant
            k <= order@.len(),
            order@.len() == t.children@.len(),
            forall|q: int| 0 <= q < order@.len() ==> order@[q] < t.children@.len(),
            forall|w: usize| (w as int) < t.children@.len() ==> #[trigger] order@.contains(w),
            sorted_names(t.children@, order@),
            kids@.len() == k,
            forall|q: int| 0 <= q < k ==> gm(#[trigger] kids@[q], t.children@[order@[q] as int]),
        decreases order@.len() - k,
    {
        let idx = order[k];
        proof {
            assert(decreases_to!(*t => t.children));
            assert(decreases_to!(t.children => t.children@));
            assert(decreases_to!(t.children@ => t.children@[idx as int]));
        }
        let child = build_grammar(&t.children[idx]);
        kids.push(child);
        k += 1;
    }
    let takes_trailing = t.cmd.is_some();
    let requires_sub = !takes_trailing && t.children.len() > 0;
    let about = match &t.description {
        Some(d) => Some(d.clone()),
        None => None,
    };
    let g = GrammarNode {
        name: t.name.clone(),
        about,
        takes_trailing,
        requires_sub,
        children: kids,
    };
    proof {
        assert forall|i: int| 0 <= i < g.children@.len() implies gm_some(
            #[trigger] g.children@[i],
            t.children@,
        ) by {
            assert(gm(g.children@[i], t.children@[order@[i] as int]));
        }
        assert forall|j: int|
            0 <= j < t.children@.len() implies has_gname(
            g.children@,
            (#[trigger] t.children@[j]).name@,
        ) by {
            assert(order@.contains(j as usize));
            let q = choose|q: int| 0 <= q < order@.len() && order@[q] == j as usize;
            assert(gm(g.children@[q], t.children@[j]));
        }
        assert forall|k1: int, k2: int|
            0 <= k1 < k2 < g.children@.len() implies lex_le(
            (#[trigger] g.children@[k1]).name@,
            (#[trigger] g.children@[k2]).name@,
        ) by {
            assert(gm(g.children@[k1], t.children@[order@[k1] as int]));
            assert(gm(g.children@[k2], t.children@[order@[k2] as int]));
        }
    }
    g
}

/// The first grammar node at or after position `i` whose name is `name`.
pub open spec fn gchild_from(s: Seq<GrammarNode>, name: Seq<char>, i: int) -> Option<GrammarNode>
    decreases s.len() - i,
{
    if i < 0 || i >= s.len() {
        None
    } else if s[i].name@ == name {
        Some(s[i])
    } else {
        gchild_from(s, name, i + 1)
    }
}

/// The first grammar node in `s` whose name is `name`.
pub open spec fn gchild_named(s: Seq<GrammarNode>, name: Seq<char>) -> Option<GrammarNode> {
    gchild_from(s, name, 0)
}

/// What the grammar makes of an argument sequence.
pub enum Resolution {
    /// An accepted selection: the chain of names chosen, and the trailing
    /// tokens captured after it.
    Sel { path: Seq<Seq<char>>, trailing: Seq<Seq<char>> },
    /// A rejected selection; help for the node at `path`, the deepest one
    /// matched, should be shown.
    Usage { path: Seq<Seq<char>> },
}

/// Trailing capture skips one leading `--` separator.
pub open spec fn strip_sep(args: Seq<Seq<char>>) -> Seq<Seq<char>> {
    if args.len() > 0 && args[0] == "--"@ {
        args.drop_first()
    } else {
        args
    }
}

/// Resolve `args` against the grammar node `g`, having already descended
/// along `here`. Each argument that names a child descends into it; the
/// first that names none is captured as trailing input when the node is
/// runnable and rejected otherwise; an exhausted argument list is accepted
/// unless the node still requires a sub-selection.
pub open spec fn match_from(g: GrammarNode, args: Seq<Seq<char>>, here: Seq<Seq<char>>) -> Resolution
    decreases args.len(),
{
    if args.len() == 0 {
        if g.requires_sub {
            Resolution::Usage { path: here }
        } else {
            Resolution::Sel { path: here, trailing: Seq::empty() }
        }
    } else {
        match gchild_named(g.children@, args[0]) {
            Some(c) => match_from(c, args.drop_first(), here.push(args[0])),
            None => {
                if g.takes_trailing {
                    Resolution::Sel { path: here, trailing: strip_sep(args) }
                } else {
                    Resolution::Usage { path: here }
                }
            },
        }
    }
}

/// The executable counterpart of `Resolution`.
#[derive(Debug, PartialEq, Eq)]
pub enum MatchOutcome {
    Sel { path: Vec<String>, trailing: Vec<String> },
    Usage { path: Vec<String> },
}

/// The resolution an outcome stands for.
pub open spec fn outcome_view(m: MatchOutcome) -> Resolution {
    match m {
        MatchOutcome::Sel { path, trailing } => Resolution::Sel {
            path: seg_views(path@),
            trailing: seg_views(trailing@),
        },
        MatchOutcome::Usage { path } => Resolution::Usage { path: seg_views(path@) },
    }
}

/// Resolve `args` against the grammar, mirroring `match_from` exactly.
pub fn match_args(g: &GrammarNode, args: &[String]) -> (r: MatchOutcome)
    ensures
        outcome_view(r) == match_from(*g, seg_views(args@), Seq::<Seq<char>>::empty()),
{
    let ghost full: Seq<Seq<char>> = seg_views(args@);
    let mut cur: &GrammarNode = g;
    let mut i: usize = 0;
    let mut path: Vec<String> = Vec::new();
    proof {
        assert(full.skip(0) =~= full);
        assert(seg_views(path@) =~= full.take(0));
        assert(seg_views(path@) =~= Seq::<Seq<char>>::empty());
    }
    while i < args.len()
        invariant
            i <= args@.len(),
            full == seg_views(args@),
            seg_views(path@) == full.take(i as int),
            match_from(*g, full, Seq::<Seq<char>>::empty()) == match_from(
                *cur,
                full.skip(i as int),
                seg_views(path@),
            ),
        decreases args@.len() - i,
    {
        let seg: &String = &args[i];
        let mut j: usize = 0;
        let mut hit: Option<&GrammarNode> = None;
        while j < cur.children.len() && hit.is_none()
            invariant
                j <= cur.children@.len(),
                match hit {
                    Some(c) => gchild_named(cur.children@, seg@) == Some(*c),
                    None => gchild_named(cur.children@, seg@) == gchild_from(
                        cur.children@,
                        seg@,
                        j as int,
                    ),
                },
            decreases cur.children@.len() - j,
        {
            if cur.children[j].name.eq(seg) {
                hit = Some(&cur.children[j]);
            }
            j += 1;
        }
        proof {
            assert(full.skip(i as int)[0] == seg@);
        }
        match hit {
            Some(c) => {
                let ghost prev_path = path@;
                path.push(seg.clone());
                proof {
                    assert(full.skip(i as int).drop_first() =~= full.skip(i as int + 1));
                    assert(seg_views(path@) =~= seg_views(prev_path).push(seg@));
                    assert(seg_views(path@) =~= full.take(i as int + 1));
                }
                cur = c;
                i += 1;
            },
            None => {
                if cur.takes_trailing {
                    let sep: String = "--".to_owned();
                    let mut start = i;
                    if args[i].eq(&sep) {
                        start = i + 1;
                    }
                    let mut trailing: Vec<String> = Vec::new();
                    let mut q = start;
                    proof {
                        assert(seg_views(trailing@) =~= full.subrange(start as int, start as int));
                    }
                    while q < args.len()
                        invariant
                            start <= q <= args@.len(),
                            full == seg_views(args@),
                            seg_views(trailing@) == full.subrange(start as int, q as int),
                        decreases args@.len() - q,
                    {
                        let ghost prev_trail = trailing@;
                        trailing.push(args[q].clone());
                        proof {
                            assert(seg_views(trailing@) =~= seg_views(prev_trail).push(
                                full[q as int],
                            ));
                            assert(seg_views(trailing@) =~= full.subrange(
                                start as int,
                                q as int + 1,
                            ));
                        }
                        q += 1;
                    }
                    proof {
                        if start == i + 1 {
                            assert(full.skip(i as int).drop_first() =~= full.subrange(
                                start as int,
                                full.len() as int,
                            ));
                        } else {
                            assert(full.skip(i as int) =~= full.subrange(
                                start as int,
                                full.len() as int,
                            ));
                        }
                        assert(seg_views(trailing@) == strip_sep(full.skip(i as int)));
                    }
                    return MatchOutcome::Sel { path, trailing };
                } else {
                    return MatchOutcome::Usage { path };
                }
            },
        }
    }
    proof {
        assert(full.skip(i as int) =~= Seq::<Seq<char>>::empty());
    }
    if cur.requires_sub {
        MatchOutcome::Usage { path }
    } else {
        let trailing: Vec<String> = Vec::new();
        proof {
            assert(seg_views(trailing@) =~= Seq::<Seq<char>>::empty());
        }
        MatchOutcome::Sel { path, trailing }
    }
}

pub proof fn lemma_child_from_props(s: Seq<CmdNode>, name: Seq<char>, i: int)
    requires
        0 <= i <= s.len(),
    ensures
        match crate::model::child_from(s, name, i) {
            Some(c) => exists|k: int|
                i <= k < s.len() && (#[trigger] s[k]).name@ == name && c == s[k],
            None => forall|k: int| i <= k < s.len() ==> (#[trigger] s[k]).name@ != name,
        },
    decreases s.len() - i,
{
    if i < s.len() && s[i].name@ != name {
        lemma_child_from_props(s, name, i + 1);
    }
}

pub proof fn lemma_gchild_from_props(s: Seq<GrammarNode>, name: Seq<char>, i: int)
    requires
        0 <= i <= s.len(),
    ensures
        match gchild_from(s, name, i) {
            Some(c) => exists|k: int|
                i <= k < s.len() && (#[trigger] s[k]).name@ == name && c == s[k],
            None => forall|k: int| i <= k < s.len() ==> (#[trigger] s[k]).name@ != name,
        },
    decreases s.len() - i,
{
    if i < s.len() && s[i].name@ != name {
        lemma_gchild_from_props(s, name, i + 1);
    }
}

/// Resolving any argument sequence that names a path through a well-formed
/// tree follows exactly that path: the grammar accepts it when the node it
/// reaches may be selected outright, and rejects it with a usage error for
/// that very node when the node is a pure namespace still awaiting a
/// sub-selection.
pub proof fn lemma_match_follows_path(
    g: GrammarNode,
    t: CmdNode,
    args: Seq<Seq<char>>,
    here: Seq<Seq<char>>,
)
    requires
        crate::model::wf_node(t),
        gm(g, t),
        (find_in(t, args) is Some),
    ensures
        ({
            let n = find_in(t, args)->0;
            match_from(g, args, here) == (if n.cmd is None && n.children@.len() > 0 {
                Resolution::Usage { path: here + args }
            } else {
                Resolution::Sel { path: here + args, trailing: Seq::<Seq<char>>::empty() }
            })
        }),
    decreases args.len(),
{
    if args.len() == 0 {
        assert(here + args =~= here);
    } else {
        let name = args[0];
        lemma_child_from_props(t.children@, name, 0);
        let c = crate::model::child_named(t.children@, name)->0;
        let k = choose|k: int|
            0 <= k < t.children@.len() && (#[trigger] t.children@[k]).name@ == name && c
                == t.children@[k];
        assert(has_gname(g.children@, t.children@[k].name@));
        lemma_gchild_from_props(g.children@, name, 0);
        assert(gchild_named(g.children@, name) is Some);
        let gc = gchild_named(g.children@, name)->0;
        let i0 = choose|i: int|
            0 <= i < g.children@.len() && (#[trigger] g.children@[i]).name@ == name && gc
                == g.children@[i];
        assert(gm_some(g.children@[i0], t.children@));
        let j = choose|j: int| 0 <= j < t.children@.len() && gm(gc, #[trigger] t.children@[j]);
        assert(t.children@[j].name@ == name);
        assert(j == k);
        assert(gm(gc, c));
        assert(crate::model::wf_node(t.children@[k]));
        lemma_match_follows_path(gc, c, args.drop_first(), here.push(name));
        assert(here.push(name) + args.drop_first() =~= here + args);
    }
}

/// The path the grammar reports, accepted or rejected, always resolves in a
/// well-formed tree: a matched selection can never desynchronize from the
/// tree the grammar was built from, so the dispatcher's defensive fallback
/// to root help is unreachable for trees with distinct sibling names.
pub proof fn lemma_matched_path_resolves(
    g: GrammarNode,
    t: CmdNode,
    args: Seq<Seq<char>>,
    here: Seq<Seq<char>>,
)
    requires
        crate::model::wf_node(t),
        gm(g, t),
    ensures
        ({
            let p = match match_from(g, args, here) {
                Resolution::Sel { path, trailing } => path,
                Resolution::Usage { path } => path,
            };
            p.len() >= here.len() && p.take(here.len() as int) == here && (find_in(
                t,
                p.skip(here.len() as int),
            ) is Some)
        }),
    decreases args.len(),
{
    let p = match match_from(g, args, here) {
        Resolution::Sel { path, trailing } => path,
        Resolution::Usage { path } => path,
    };
    if args.len() == 0 || gchild_named(g.children@, args[0]) is None {
        assert(p == here);
        assert(p.take(here.len() as int) =~= here);
        assert(p.skip(here.len() as int) =~= Seq::<Seq<char>>::empty());
    } else {
        let name = args[0];
        lemma_gchild_from_props(g.children@, name, 0);
        let gc = gchild_named(g.children@, name)->0;
        let i0 = choose|i: int|
            0 <= i < g.children@.len() && (#[trigger] g.children@[i]).name@ == name && gc
                == g.children@[i];
        assert(gm_some(g.children@[i0], t.children@));
        let j = choose|j: int| 0 <= j < t.children@.len() && gm(gc, #[trigger] t.children@[j]);
        assert(t.children@[j].name@ == name);
        lemma_child_from_props(t.children@, name, 0);
        assert(crate::model::child_named(t.children@, name) is Some);
        let c = crate::model::child_named(t.children@, name)->0;
        let k = choose|k: int|
            0 <= k < t.children@.len() && (#[trigger] t.children@[k]).name@ == name && c
                == t.children@[k];
        assert(j == k);
        assert(gm(gc, c));
        assert(crate::model::wf_node(t.children@[k]));
        lemma_matched_path_resolves(gc, c, args.drop_first(), here.push(name));
        assert(p.take(here.len() as int + 1) == here.push(name));
        assert(p.take(here.len() as int) =~= here);
        assert(p.take(here.len() as int + 1)[here.len() as int] == name);
        assert(p[here.len() as int] == name);
        assert(p.skip(here.len() as int)[0] == name);
        assert(p.skip(here.len() as int).drop_first() =~= p.skip(here.len() as int + 1));
    }
}

/// For every well-formed tree: building the grammar and parsing the names
/// along any root-to-runnable-node path, with nothing after them, resolves
/// to exactly that path, with no trailing input.
pub proof fn lemma_runnable_path_resolves(g: GrammarNode, t: CmdNode, path: Seq<Seq<char>>)
    requires
        crate::model::wf_node(t),
        gm(g, t),
        (find_in(t, path) is Some),
        ((find_in(t, path)->0).cmd is Some),
    ensures
        (match_from(g, path, Seq::<Seq<char>>::empty()) == Resolution::Sel {
            path: path,
            trailing: Seq::<Seq<char>>::empty(),
        }),
{
    lemma_match_follows_path(g, t, path, Seq::<Seq<char>>::empty());
    assert(Seq::<Seq<char>>::empty() + path =~= path);
}

/// A pure namespace node with children, selected with no further
/// sub-selection, is always rejected with a usage error for that node and is
/// never an accepted selection, so nothing is ever executed for it.
pub proof fn lemma_namespace_needs_selection(g: GrammarNode, t: CmdNode, path: Seq<Seq<char>>)
    requires
        crate::model::wf_node(t),
        gm(g, t),
        (find_in(t, path) is Some),
        ((find_in(t, path)->0).cmd is None),
        (find_in(t, path)->0).children@.len() > 0,
    ensures
        (match_from(g, path, Seq::<Seq<char>>::empty()) == Resolution::Usage { path: path }),
        (!(match_from(g, path, Seq::<Seq<char>>::empty()) is Sel)),
{
    lemma_match_follows_path(g, t, path, Seq::<Seq<char>>::empty());
    assert(Seq::<Seq<char>>::empty() + path =~= path);
}

/// A node with both a command and children is directly selectable when its
/// path arrives with no further argument, and selectable through a child
/// when a valid runnable child name follows.
pub proof fn lemma_runnable_namespace_both_ways(
    g: GrammarNode,
    t: CmdNode,
    path: Seq<Seq<char>>,
    child: Seq<char>,
)
    requires
        crate::model::wf_node(t),
        gm(g, t),
        (find_in(t, path) is Some),
        ((find_in(t, path)->0).cmd is Some),
        (find_in(t, path)->0).children@.len() > 0,
        (find_in(t, path.push(child)) is Some),
        ((find_in(t, path.push(child))->0).cmd is Some),
    ensures
        (match_from(g, path, Seq::<Seq<char>>::empty()) == Resolution::Sel {
            path: path,
            trailing: Seq::<Seq<char>>::empty(),
        }),
        (match_from(g, path.push(child), Seq::<Seq<char>>::empty()) == Resolution::Sel {
            path: path.push(child),
            trailing: Seq::<Seq<char>>::empty(),
        }),
{
    lemma_runnable_path_resolves(g, t, path);
    lemma_runnable_path_resolves(g, t, path.push(child));
}

} // verus!
