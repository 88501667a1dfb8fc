//! Projection of a nested configuration table into a command tree.
//!
//! A table is read as a node: the keys `description`, `cmd` and `command`
//! are reserved metadata and never become children; every other key whose
//! value is itself a table becomes a child node named after that key; any
//! other key/value pair is ignored. `cmd` and `command` both name the
//! node's shell command, `cmd` taking precedence when both hold strings. A
//! top-level `title` string backfills the root description when the root
//! has none of its own.

use vstd::prelude::*;
use crate::model::{opt_text, CmdNode};

verus! {

/// A configuration value: tables nest, strings carry metadata, and anything
/// else is opaque to the projector and ignored.
#[derive(Debug, PartialEq, Eq)]
pub enum ConfigValue {
    Text(String),
    Table(ConfigTable),
    Other,
}

/// A nested key/value table, in the order the configuration source gave.
#[derive(Debug, PartialEq, Eq)]
pub struct ConfigTable {
    pub entries: Vec<(String, ConfigValue)>,
}

/// The value of the first entry at or after position `i` whose key is `key`.
pub open spec fn entry_from(
    es: Seq<(String, ConfigValue)>,
    key: Seq<char>,
    i: int,
) -> Option<ConfigValue>
    decreases es.len() - i,
{
    if i < 0 || i >= es.len() {
        None
    } else if es[i].0@ == key {
        Some(es[i].1)
    } else {
        entry_from(es, key, i + 1)
    }
}

/// The string value stored under `key`, if the first entry with that key
/// holds a string.
pub open spec fn text_value(t: ConfigTable, key: Seq<char>) -> Option<Seq<char>> {
    match entry_from(t.entries@, key, 0) {
        Some(ConfigValue::Text(s)) => Some(s@),
        _ => None,
    }
}

/// A reserved metadata key: such an entry is read for the node itself and
/// never projected into a child, whatever its value.
pub open spec fn reserved_key(k: Seq<char>) -> bool {
    k == "description"@ || k == "cmd"@ || k == "command"@
}

/// The node's shell command: the string under `cmd` when there is one,
/// else the string under `command`.
pub open spec fn command_text(t: ConfigTable) -> Option<Seq<char>> {
    match text_value(t, "cmd"@) {
        Some(c) => Some(c),
        None => text_value(t, "command"@),
    }
}

/// `kids` are exactly the projections of the table-valued entries of `es`
/// whose keys are not reserved, in entry order.
pub open spec fn children_project(es: Seq<(String, ConfigValue)>, kids: Seq<CmdNode>) -> bool
    decreases es,
{
    if es.len() == 0 {
        kids.len() == 0
    } else if reserved_key(es.last().0@) {
        children_project(es.drop_last(), kids)
    } else {
        match es.last().1 {
            ConfigValue::Table(sub) => kids.len() > 0 && projects(es.last().0@, sub, kids.last())
                && children_project(es.drop_last(), kids.drop_last()),
            _ => children_project(es.drop_last(), kids),
        }
    }
}

/// `n` is the projection of table `t` under the name `name`.
pub open spec fn projects(name: Seq<char>, t: ConfigTable, n: CmdNode) -> bool
    decreases t,
{
    &&& n.name@ == name
    &&& opt_text(n.description) == text_value(t, "description"@)
    &&& opt_text(n.cmd) == command_text(t)
    &&& children_project(t.entries@, n.children@)
}

/// `n` is the projection of the whole configuration: as `projects`, except
/// that a top-level `title` string stands in for a missing root description.
pub open spec fn projects_root(name: Seq<char>, t: ConfigTable, n: CmdNode) -> bool {
    &&& n.name@ == name
    &&& opt_text(n.cmd) == command_text(t)
    &&& children_project(t.entries@, n.children@)
    &&& opt_text(n.description) == (match text_value(t, "description"@) {
        Some(d) => Some(d),
        None => text_value(t, "title"@),
    })
}

/// The non-reserved keys of the table-valued entries of `es`, in entry
/// order: the names the children of the projected node must carry.
pub open spec fn table_keys(es: Seq<(String, ConfigValue)>) -> Seq<Seq<char>>
    decreases es,
{
    if es.len() == 0 {
        Seq::empty()
    } else if reserved_key(es.last().0@) {
        table_keys(es.drop_last())
    } else {
        match es.last().1 {
            ConfigValue::Table(_sub) => table_keys(es.drop_last()).push(es.last().0@),
            _ => table_keys(es.drop_last()),
        }
    }
}

/// Round trip of the projector, child-name part: reading back the child
/// names of a projected node reproduces exactly the keys of the
/// table-valued entries, in entry order. (Name, description and command
/// read back by the very clauses of `projects`.)
pub proof fn lemma_projected_child_names(es: Seq<(String, ConfigValue)>, kids: Seq<CmdNode>)
    requires
        children_project(es, kids),
    ensures
        kids.map_values(|c: CmdNode| c.name@) == table_keys(es),
    decreases es,
{
    let f = |c: CmdNode| c.name@;
    if es.len() == 0 {
        assert(kids.map_values(f) =~= table_keys(es));
    } else if reserved_key(es.last().0@) {
        lemma_projected_child_names(es.drop_last(), kids);
    } else {
        match es.last().1 {
            ConfigValue::Table(sub) => {
                lemma_projected_child_names(es.drop_last(), kids.drop_last());
                assert(projects(es.last().0@, sub, kids.last()));
                assert(kids.last().name@ == es.last().0@);
                assert(kids.map_values(f) =~= kids.drop_last().map_values(f).push(
                    f(kids.last()),
                ));
            },
            _ => {
                lemma_projected_child_names(es.drop_last(), kids);
            },
        }
    }
}

/// Keys are pairwise distinct at one level of the table.
pub open spec fn distinct_keys(es: Seq<(String, ConfigValue)>) -> bool {
    forall|i: int, j: int| 0 <= i < j < es.len() ==> es[i].0@ != es[j].0@
}

/// Every level of the table has pairwise distinct keys, as any parsed
/// configuration does.
pub open spec fn wf_table(t: ConfigTable) -> bool
    decreases t,
{
    &&& distinct_keys(t.entries@)
    &&& forall|i: int| 0 <= i < t.entries@.len() ==> wf_value((#[trigger] t.entries@[i]).1)
}

pub open spec fn wf_value(v: ConfigValue) -> bool
    decreases v,
{
    match v {
        ConfigValue::Table(sub) => wf_table(sub),
        _ => true,
    }
}

/// Every child name the projector emits is a key of the table.
pub proof fn lemma_table_keys_are_keys(es: Seq<(String, ConfigValue)>)
    ensures
        forall|q: int|
            0 <= q < table_keys(es).len() ==> exists|i: int|
                0 <= i < es.len() && (#[trigger] table_keys(es)[q]) == es[i].0@,
    decreases es,
{
    if es.len() > 0 {
        lemma_table_keys_are_keys(es.drop_last());
        assert forall|q: int| 0 <= q < table_keys(es).len() implies exists|i: int|
            0 <= i < es.len() && (#[trigger] table_keys(es)[q]) == es[i].0@ by {
            if q < table_keys(es.drop_last()).len() {
                let i = choose|i: int|
                    0 <= i < es.drop_last().len() && table_keys(es.drop_last())[q] == (
                    #[trigger] es.drop_last()[i]).0@;
                assert(es.drop_last()[i] == es[i]);
                assert(table_keys(es)[q] == es[i].0@);
            } else {
                assert(table_keys(es)[q] == es[es.len() - 1].0@);
            }
        }
    }
}

/// Distinct keys make distinct child names.
pub proof fn lemma_table_keys_distinct(es: Seq<(String, ConfigValue)>)
    requires
        distinct_keys(es),
    ensures
        forall|q1: int, q2: int|
            0 <= q1 < q2 < table_keys(es).len() ==> table_keys(es)[q1] != table_keys(es)[q2],
    decreases es,
{
    if es.len() > 0 {
        assert(distinct_keys(es.drop_last()));
        lemma_table_keys_distinct(es.drop_last());
        lemma_table_keys_are_keys(es.drop_last());
        assert forall|q1: int, q2: int|
            0 <= q1 < q2 < table_keys(es).len() implies table_keys(es)[q1] != table_keys(
            es,
        )[q2] by {
            let prev = table_keys(es.drop_last());
            if q2 < prev.len() {
                assert(table_keys(es)[q1] == prev[q1] && table_keys(es)[q2] == prev[q2]);
            } else if q2 == prev.len() && table_keys(es).len() > prev.len() {
                let i = choose|i: int|
                    0 <= i < es.drop_last().len() && (#[trigger] prev[q1]) == es.drop_last()[i].0@;
                assert(es.drop_last()[i] == es[i]);
                assert(table_keys(es)[q2] == es[es.len() - 1].0@);
                assert(es[i].0@ != es[es.len() - 1].0@);
            }
        }
    }
}

/// The children of a projected node are themselves projections of
/// well-formed tables, hence well-formed.
pub proof fn lemma_projected_children_wf(es: Seq<(String, ConfigValue)>, kids: Seq<CmdNode>)
    requires
        children_project(es, kids),
        forall|i: int| 0 <= i < es.len() ==> wf_value((#[trigger] es[i]).1),
    ensures
        forall|q: int| 0 <= q < kids.len() ==> crate::model::wf_node(#[trigger] kids[q]),
    decreases es,
{
    if es.len() > 0 {
        assert(es[es.len() - 1] == es.last());
        assert forall|i: int| 0 <= i < es.drop_last().len() implies wf_value(
            (#[trigger] es.drop_last()[i]).1,
        ) by {
            assert(es.drop_last()[i] == es[i]);
        }
        if reserved_key(es.last().0@) {
            lemma_projected_children_wf(es.drop_last(), kids);
        } else {
            match es.last().1 {
                ConfigValue::Table(sub) => {
                    lemma_projected_children_wf(es.drop_last(), kids.drop_last());
                    assert(wf_value(es.last().1));
                    lemma_projected_wf(es.last().0@, sub, kids.last());
                    assert forall|q: int| 0 <= q < kids.len() implies crate::model::wf_node(
                        #[trigger] kids[q],
                    ) by {
                        if q < kids.len() - 1 {
                            assert(kids.drop_last()[q] == kids[q]);
                        } else {
                            assert(kids[q] == kids.last());
                        }
                    }
                },
                _ => {
                    lemma_projected_children_wf(es.drop_last(), kids);
                },
            }
        }
    }
}

/// A projection of a well-formed table is a well-formed tree: sibling names
/// are distinct at every level, which is what the grammar laws ask of the
/// trees they speak about.
pub proof fn lemma_projected_wf(name: Seq<char>, t: ConfigTable, n: CmdNode)
    requires
        wf_table(t),
        projects(name, t, n),
    ensures
        crate::model::wf_node(n),
    decreases t,
{
    lemma_projected_children_wf(t.entries@, n.children@);
    lemma_projected_child_names(t.entries@, n.children@);
    lemma_table_keys_distinct(t.entries@);
    let f = |c: CmdNode| c.name@;
    assert forall|i: int, j: int|
        0 <= i < j < n.children@.len() implies n.children@[i].name@ != n.children@[j].name@ by {
        assert(n.children@.map_values(f)[i] == n.children@[i].name@);
        assert(n.children@.map_values(f)[j] == n.children@[j].name@);
    }
}

/// As `lemma_projected_wf`, for the root projection with its title
/// backfill: the description plays no part in well-formedness.
pub proof fn lemma_projected_root_wf(name: Seq<char>, t: ConfigTable, n: CmdNode)
    requires
        wf_table(t),
        projects_root(name, t, n),
    ensures
        crate::model::wf_node(n),
{
    lemma_projected_children_wf(t.entries@, n.children@);
    lemma_projected_child_names(t.entries@, n.children@);
    lemma_table_keys_distinct(t.entries@);
    let f = |c: CmdNode| c.name@;
    assert forall|i: int, j: int|
        0 <= i < j < n.children@.len() implies n.children@[i].name@ != n.children@[j].name@ by {
        assert(n.children@.map_values(f)[i] == n.children@[i].name@);
        assert(n.children@.map_values(f)[j] == n.children@[j].name@);
    }
}

/// The string stored under `key`, cloned out of the table, if the first
/// entry with that key holds a string.
fn text_entry(t: &ConfigTable, key: &String) -> (r: Option<String>)
    ensures
        opt_text(r) == text_value(*t, key@),
{
    let mut i: usize = 0;
    while i < t.entries.len()
        invariant
            i <= t.entries@.len(),
            entry_from(t.entries@, key@, 0) == entry_from(t.entries@, key@, i as int),
        decreases t.entries@.len() - i,
    {
        if t.entries[i].0.eq(key) {
            match &t.entries[i].1 {
                ConfigValue::Text(s) => {
                    return Some(s.clone());
                },
                _ => {
                    return None;
                },
            }
        }
        i += 1;
    }
    None
}

/// Project one table into one node; children are projected recursively in
/// entry order.
fn build_node(name: &str, t: &ConfigTable) -> (n: CmdNode)
    ensures
        projects(name@, *t, n),
    decreases *t,
{
    let dkey: String = "description".to_owned();
    let ckey: String = "cmd".to_owned();
    let mkey: String = "command".to_owned();
    let description = text_entry(t, &dkey);
    let cmd = match text_entry(t, &ckey) {
        Some(c) => Some(c),
        None => text_entry(t, &mkey),
    };
    let mut children: Vec<CmdNode> = Vec::new();
    let mut i: usize = 0;
    while i < t.entries.len()
        invariant
            i <= t.entries@.len(),
            dkey@ == "description"@,
            ckey@ == "cmd"@,
            mkey@ == "command"@,
            children_project(t.entries@.take(i as int), children@),
        decreases t.entries@.len() - i,
    {
        let ghost prev_kids = children@;
        match &t.entries[i].1 {
            ConfigValue::Table(sub) => {
                if t.entries[i].0.eq(&dkey) || t.entries[i].0.eq(&ckey) || t.entries[i].0.eq(
                    &mkey,
                ) {
                    // Reserved metadata key: never a child, even table-valued.
                    proof {
                        assert(reserved_key(t.entries@[i as int].0@));
                    }
                } else {
                    proof {
                        assert(!reserved_key(t.entries@[i as int].0@));
                        assert(decreases_to!(*t => t.entries));
                        assert(decreases_to!(t.entries => t.entries@));
                        assert(decreases_to!(t.entries@ => t.entries@[i as int]));
                        assert(decreases_to!(t.entries@[i as int] => t.entries@[i as int].1));
                        assert(decreases_to!(t.entries@[i as int].1 => *sub));
                    }
                    let child = build_node(t.entries[i].0.as_str(), sub);
                    let ghost gc = child;
                    children.push(child);
                    proof {
                        assert(children@.drop_last() =~= prev_kids);
                        assert(children@.last() == gc);
                        assert(projects(t.entries@[i as int].0@, t.entries@[i as int].1->Table_0, gc));
                    }
                }
            },
            _ => {
                proof {
                    assert(!(t.entries@[i as int].1 is Table));
                }
            },
        }
        proof {
            let es = t.entries@;
            assert(es.take(i as int + 1).drop_last() =~= es.take(i as int));
            assert(es.take(i as int + 1).last() == es[i as int]);
        }
        i += 1;
    }
    proof {
        assert(t.entries@.take(t.entries@.len() as int) =~= t.entries@);
    }
    CmdNode { name: name.to_owned(), description, cmd, children }
}

/// Project a whole configuration table into the command tree rooted at
/// `root_name`, backfilling the root description from a top-level `title`.
pub fn table_to_root(root_name: &str, t: &ConfigTable) -> (r: CmdNode)
    ensures
        projects_root(root_name@, *t, r),
{
    let mut root = build_node(root_name, t);
    if root.description.is_none() {
        let tkey: String = "title".to_owned();
        root.description = text_entry(t, &tkey);
    }
    root
}

} // verus!
