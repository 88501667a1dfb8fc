//! The command tree: the one entity of the library, and the path lookup
//! that turns a validated selection back into a node.

use vstd::prelude::*;

verus! {

/// A node of the command tree.
///
/// `cmd` and `children` are two independent facets: a node may carry a shell
/// command, child nodes, both (a runnable namespace), or neither (a dead end
/// that is selectable but does nothing).
#[derive(Debug, PartialEq, Eq)]
pub struct CmdNode {
    pub name: String,
    pub description: Option<String>,
    pub cmd: Option<String>,
    pub children: Vec<CmdNode>,
}

/// The character sequences of a sequence of strings.
pub open spec fn seg_views(s: Seq<String>) -> Seq<Seq<char>> {
    s.map_values(|x: String| x@)
}

/// The character sequence of an optional string.
pub open spec fn opt_text(o: Option<String>) -> Option<Seq<char>> {
    match o {
        Some(s) => Some(s@),
        None => None,
    }
}

/// The first node at or after position `i` whose name is `name`.
pub open spec fn child_from(s: Seq<CmdNode>, name: Seq<char>, i: int) -> Option<CmdNode>
    decreases s.len() - i,
{
    if i < 0 || i >= s.len() {
        None
    } else if s[i].name@ == name {
        Some(s[i])
    } else {
        child_from(s, name, i + 1)
    }
}

/// The first node in `s` whose name is `name`.
pub open spec fn child_named(s: Seq<CmdNode>, name: Seq<char>) -> Option<CmdNode> {
    child_from(s, name, 0)
}

/// Descend from `n` child by child along `path`; the empty path selects `n`
/// itself, and the lookup fails the moment a segment matches no child name.
pub open spec fn find_in(n: CmdNode, path: Seq<Seq<char>>) -> Option<CmdNode>
    decreases path.len(),
{
    if path.len() == 0 {
        Some(n)
    } else {
        match child_named(n.children@, path[0]) {
            Some(c) => find_in(c, path.drop_first()),
            None => None,
        }
    }
}

/// Lookup decomposes over path concatenation: resolving `p + q` from a node
/// is resolving `p`, then resolving `q` from the node reached. A node any
/// number of levels deep therefore resolves through that many chained
/// single-segment lookups, with no depth limit.
pub proof fn lemma_find_in_append(n: CmdNode, p: Seq<Seq<char>>, q: Seq<Seq<char>>)
    ensures
        (find_in(n, p + q) == (match find_in(n, p) {
            Some(m) => find_in(m, q),
            None => None,
        })),
    decreases p.len(),
{
    if p.len() == 0 {
        assert(p + q =~= q);
    } else {
        assert((p + q)[0] == p[0]);
        match child_named(n.children@, p[0]) {
            Some(c) => {
                assert((p + q).drop_first() =~= p.drop_first() + q);
                lemma_find_in_append(c, p.drop_first(), q);
            },
            None => {},
        }
    }
}

/// Sibling names are pairwise distinct.
pub open spec fn distinct_names(s: Seq<CmdNode>) -> bool {
    forall|i: int, j: int| 0 <= i < j < s.len() ==> s[i].name@ != s[j].name@
}

/// A well-formed tree: at every level, sibling names are distinct.
pub open spec fn wf_node(n: CmdNode) -> bool
    decreases n,
{
    &&& distinct_names(n.children@)
    &&& forall|i: int| 0 <= i < n.children@.len() ==> wf_node(#[trigger] n.children@[i])
}

/// Path lookup over the tree, mirroring `find_in` exactly.
pub fn find_node<'a>(root: &'a CmdNode, path: &[String]) -> (r: Option<&'a CmdNode>)
    ensures
        match r {
            Some(n) => find_in(*root, seg_views(path@)) == Some(*n),
            None => find_in(*root, seg_views(path@)) is None,
        },
{
    let ghost full: Seq<Seq<char>> = seg_views(path@);
    let mut cur: &CmdNode = root;
    let mut i: usize = 0;
    assert(full.skip(0) =~= full);
    while i < path.len()
        invariant
            i <= path@.len(),
            full == seg_views(path@),
            find_in(*root, full) == find_in(*cur, full.skip(i as int)),
        decreases path@.len() - i,
    {
        let seg: &String = &path[i];
        let mut j: usize = 0;
        let mut hit: Option<&CmdNode> = None;
        while j < cur.children.len() && hit.is_none()
            invariant
                j <= cur.children@.len(),
                match hit {
                    Some(c) => child_named(cur.children@, seg@) == Some(*c),
                    None => child_named(cur.children@, seg@) == child_from(
                        cur.children@,
                        seg@,
                        j as int,
                    ),
                },
            decreases cur.children@.len() - j,
        {
            if cur.children[j].name.eq(seg) {
                hit = Some(&cur.children[j]);
            }
            j += 1;
        }
        match hit {
            Some(c) => {
                assert(child_named(cur.children@, seg@) == Some(*c));
                assert(full.skip(i as int)[0] == seg@);
                assert(full.skip(i as int).drop_first() =~= full.skip(i as int + 1));
                cur = c;
                i += 1;
            },
            None => {
                assert(child_named(cur.children@, seg@) is None);
                assert(full.skip(i as int)[0] == seg@);
                return None;
            },
        }
    }
    assert(full.skip(i as int) =~= Seq::<Seq<char>>::empty());
    Some(cur)
}

} // verus!
