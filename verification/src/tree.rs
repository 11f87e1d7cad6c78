//! Building the screen tree from level-numbered entries.
//!
//! The SCREEN SECTION lists entries with level numbers; an entry's children
//! are the entries that follow it with a greater level number, up to the
//! next entry whose level is not greater. Group entries become containers,
//! leaf entries become text fields, numeric fields or buttons.
use crate::ir::{Node, PicClause, PicKind, Style};
use crate::model::{
    lemma_nodes_view, lemma_preorder_append, node_view, nodes_view, opt_view, preorder_names,
    preorder_names_of, SpecNode,
};
use vstd::prelude::*;

verus! {

/// One data entry of the DATA DIVISION, before the tree is built.
#[derive(Debug)]
pub struct FlatEntry {
    pub level: u8,
    pub name: String,
    pub pic: Option<PicClause>,
    pub value: Option<String>,
    pub binding: Option<String>,
    pub action: Option<String>,
    pub navigate: Option<String>,
    pub fg_color: Option<u8>,
    pub bg_color: Option<u8>,
    pub conditions: Vec<(String, String)>,
}

/// The model of a `FlatEntry`.
pub struct SpecEntry {
    pub level: u8,
    pub name: Seq<char>,
    pub pic: Option<PicClause>,
    pub value: Option<Seq<char>>,
    pub binding: Option<Seq<char>>,
    pub action: Option<Seq<char>>,
    pub navigate: Option<Seq<char>>,
    pub fg_color: Option<u8>,
    pub bg_color: Option<u8>,
    pub conditions: Seq<(Seq<char>, Seq<char>)>,
}

/// The model of a condition list.
pub open spec fn pairs_view(cs: Seq<(String, String)>) -> Seq<(Seq<char>, Seq<char>)> {
    cs.map_values(|c: (String, String)| (c.0@, c.1@))
}

/// The model of an entry.
pub open spec fn entry_view(e: FlatEntry) -> SpecEntry {
    SpecEntry {
        level: e.level,
        name: e.name@,
        pic: e.pic,
        value: opt_view(e.value),
        binding: opt_view(e.binding),
        action: opt_view(e.action),
        navigate: opt_view(e.navigate),
        fg_color: e.fg_color,
        bg_color: e.bg_color,
        conditions: pairs_view(e.conditions@),
    }
}

/// The models of entries.
pub open spec fn entries_view(es: Seq<FlatEntry>) -> Seq<SpecEntry> {
    es.map_values(|e: FlatEntry| entry_view(e))
}

/// The container levels, in the order in which they are first found: a
/// level is a container level when some entry at that level is directly
/// followed by an entry at a deeper level. Each level is listed once.
pub open spec fn container_levels_upto(es: Seq<SpecEntry>, k: int) -> Seq<u8>
    decreases k,
{
    if k <= 0 {
        seq![]
    } else {
        let acc = container_levels_upto(es, k - 1);
        let i = k - 1;
        if i + 1 < es.len() && es[i + 1].level > es[i].level && !acc.contains(es[i].level) {
            acc.push(es[i].level)
        } else {
            acc
        }
    }
}

/// The container levels of all the entries.
pub open spec fn container_levels(es: Seq<SpecEntry>) -> Seq<u8> {
    container_levels_upto(es, es.len() as int)
}

/// Whether some entry at level `l` is directly followed by a deeper entry.
pub open spec fn is_container_level(es: Seq<SpecEntry>, l: u8) -> bool {
    exists|i: int| #[trigger] deeper_next(es, i) && es[i].level == l
}

/// Whether the entry at `i` is directly followed by a deeper entry.
pub open spec fn deeper_next(es: Seq<SpecEntry>, i: int) -> bool {
    0 <= i && i + 1 < es.len() && es[i + 1].level > es[i].level
}

/// The container levels are exactly the levels that have a deeper entry
/// right after one of their entries, and none is listed twice.
pub proof fn lemma_container_levels(es: Seq<SpecEntry>, k: int)
    requires
        0 <= k <= es.len(),
    ensures
        forall|l: u8|
            container_levels_upto(es, k).contains(l) <==> exists|i: int|
                0 <= i < k && #[trigger] deeper_next(es, i) && es[i].level == l,
        container_levels_upto(es, k).no_duplicates(),
    decreases k,
{
    if k > 0 {
        lemma_container_levels(es, k - 1);
        let acc = container_levels_upto(es, k - 1);
        let cur = container_levels_upto(es, k);
        let i = k - 1;
        assert forall|l: u8|
            cur.contains(l) <==> exists|j: int| 0 <= j < k && #[trigger] deeper_next(es, j) && es[j].level == l by {
            if deeper_next(es, i) && !acc.contains(es[i].level) {
                assert(cur == acc.push(es[i].level));
                if cur.contains(l) && l != es[i].level {
                    let p = choose|p: int| 0 <= p < cur.len() && cur[p] == l;
                    assert(acc[p] == l);
                }
                if acc.contains(l) {
                    let p = choose|p: int| 0 <= p < acc.len() && acc[p] == l;
                    assert(cur[p] == l);
                }
                if l == es[i].level {
                    assert(cur[acc.len() as int] == l);
                    assert(deeper_next(es, i));
                }
            } else {
                assert(cur == acc);
                if exists|j: int| 0 <= j < k && #[trigger] deeper_next(es, j) && es[j].level == l {
                    let j = choose|j: int| 0 <= j < k && #[trigger] deeper_next(es, j) && es[j].level == l;
                    if j == i {
                        assert(acc.contains(l));
                    }
                }
            }
        }
    }
}

/// Determines which levels act as containers (have children at deeper levels).
pub fn find_container_levels(entries: &[FlatEntry]) -> (r: Vec<u8>)
    ensures
        r@ == container_levels(entries_view(entries@)),
        r@.no_duplicates(),
        forall|l: u8| r@.contains(l) <==> is_container_level(entries_view(entries@), l),
{
    let mut containers: Vec<u8> = Vec::new();
    let n = entries.len();
    let mut i: usize = 0;
    while i < n
        invariant
            n == entries@.len(),
            i <= n,
            containers@ == container_levels_upto(entries_view(entries@), i as int),
        decreases n - i,
    {
        if i + 1 < n && entries[i + 1].level > entries[i].level {
            let l = entries[i].level;
            if !contains_level(&containers, l) {
                containers.push(l);
            }
        }
        i = i + 1;
    }
    proof {
        lemma_container_levels(entries_view(entries@), n as int);
    }
    containers
}

/// Whether `l` is among `levels`.
pub fn contains_level(levels: &Vec<u8>, l: u8) -> (b: bool)
    ensures
        b == levels@.contains(l),
{
    let mut i: usize = 0;
    while i < levels.len()
        invariant
            i <= levels.len(),
            forall|j: int| 0 <= j < i ==> levels@[j] != l,
        decreases levels.len() - i,
    {
        if levels[i] == l {
            return true;
        }
        i = i + 1;
    }
    false
}

/// The style given by an entry's colour clauses.
pub open spec fn entry_style(e: SpecEntry) -> Style {
    Style { fg_color: e.fg_color, bg_color: e.bg_color }
}

/// The node made from one entry, given the models of its children and
/// whether its level is a container level.
pub open spec fn node_of(e: SpecEntry, children: Seq<SpecNode>, is_container: bool) -> SpecNode {
    let style = entry_style(e);
    if children.len() > 0 || (is_container && e.pic is None) {
        SpecNode::Container { name: e.name, children, style }
    } else if e.action is Some || e.navigate is Some {
        SpecNode::Button {
            name: e.name,
            label: match e.value {
                Some(v) => v,
                None => e.name,
            },
            action: e.action,
            navigate: e.navigate,
            style,
        }
    } else if e.pic is None {
        if e.value is Some {
            SpecNode::Button {
                name: e.name,
                label: e.value.unwrap(),
                action: e.action,
                navigate: e.navigate,
                style,
            }
        } else {
            SpecNode::Container { name: e.name, children, style }
        }
    } else if e.pic.unwrap().kind == PicKind::Numeric {
        SpecNode::Numeric {
            name: e.name,
            pic: e.pic.unwrap(),
            value: e.value,
            binding: e.binding,
            style,
        }
    } else {
        SpecNode::Text {
            name: e.name,
            pic: e.pic.unwrap(),
            value: e.value,
            binding: e.binding,
            style,
        }
    }
}

/// A copy of an optional string.
pub fn clone_opt(o: &Option<String>) -> (r: Option<String>)
    ensures
        opt_view(r) == opt_view(*o),
        r is Some == o is Some,
{
    match o {
        Some(s) => Some(s.clone()),
        None => None,
    }
}

/// Converts an entry into a node.
pub fn make_node(entry: &FlatEntry, children: Vec<Node>, is_container: bool) -> (r: Node)
    ensures
        r@ == node_of(entry_view(*entry), nodes_view(children@), is_container),
{
    proof { lemma_nodes_view(children@); }
    let style = Style { fg_color: entry.fg_color, bg_color: entry.bg_color };
    if children.len() > 0 || (is_container && entry.pic.is_none()) {
        return Node::Container { name: entry.name.clone(), children, style };
    }
    if entry.action.is_some() || entry.navigate.is_some() {
        let label = match &entry.value {
            Some(v) => v.clone(),
            None => entry.name.clone(),
        };
        return Node::Button {
            name: entry.name.clone(),
            label,
            action: clone_opt(&entry.action),
            navigate: clone_opt(&entry.navigate),
            style,
        };
    }
    match &entry.pic {
        None => {
            match &entry.value {
                Some(v) => Node::Button {
                    name: entry.name.clone(),
                    label: v.clone(),
                    action: clone_opt(&entry.action),
                    navigate: clone_opt(&entry.navigate),
                    style,
                },
                None => Node::Container { name: entry.name.clone(), children, style },
            }
        },
        Some(pic) => {
            let pic = *pic;
            match pic.kind {
                PicKind::Numeric => Node::Numeric {
                    name: entry.name.clone(),
                    pic,
                    value: clone_opt(&entry.value),
                    binding: clone_opt(&entry.binding),
                    style,
                },
                _ => Node::Text {
                    name: entry.name.clone(),
                    pic,
                    value: clone_opt(&entry.value),
                    binding: clone_opt(&entry.binding),
                    style,
                },
            }
        },
    }
}

/// The end of the subtree of the entry at `i` within `es[..to]`: the first
/// position after `i` whose level is not deeper than the level at `i`, or `to`.
pub open spec fn subtree_end(es: Seq<SpecEntry>, i: int, to: int) -> int {
    scan_deeper(es, es[i].level, i + 1, to)
}

/// The first position from `j` (below `to`) whose level is at most `lvl`, or `to`.
pub open spec fn scan_deeper(es: Seq<SpecEntry>, lvl: u8, j: int, to: int) -> int
    decreases to - j,
{
    if j >= to {
        to
    } else if es[j].level <= lvl {
        j
    } else {
        scan_deeper(es, lvl, j + 1, to)
    }
}

pub proof fn lemma_scan_deeper(es: Seq<SpecEntry>, lvl: u8, j: int, to: int)
    requires
        j <= to,
    ensures
        j <= scan_deeper(es, lvl, j, to) <= to,
        forall|k: int| j <= k < scan_deeper(es, lvl, j, to) ==> es[k].level > lvl,
        scan_deeper(es, lvl, j, to) < to ==> es[scan_deeper(es, lvl, j, to)].level <= lvl,
    decreases to - j,
{
    if j < to && es[j].level > lvl {
        lemma_scan_deeper(es, lvl, j + 1, to);
    }
}

pub proof fn lemma_scan_deeper_at(es: Seq<SpecEntry>, lvl: u8, j: int, e: int, to: int)
    requires
        j <= e <= to,
        forall|k: int| j <= k < e ==> es[k].level > lvl,
        e < to ==> es[e].level <= lvl,
    ensures
        scan_deeper(es, lvl, j, to) == e,
    decreases e - j,
{
    if j < e {
        lemma_scan_deeper_at(es, lvl, j + 1, e, to);
    }
}

/// The forest built from the entries `es[from..to]`: the first entry with
/// its subtree, followed by the forest of the entries after that subtree.
pub open spec fn forest(es: Seq<SpecEntry>, from: int, to: int, levels: Seq<u8>) -> Seq<SpecNode>
    decreases to - from,
{
    if from >= to || to > es.len() || from < 0 {
        seq![]
    } else {
        let j = subtree_end(es, from, to);
        proof {
            lemma_scan_deeper(es, es[from].level, from + 1, to);
        }
        seq![
            node_of(
                es[from],
                forest(es, from + 1, j, levels),
                levels.contains(es[from].level),
            ),
        ] + forest(es, j, to, levels)
    }
}

/// The forest that `build_tree` returns for the entries.
pub open spec fn tree_of(es: Seq<SpecEntry>) -> Seq<SpecNode> {
    forest(es, 0, es.len() as int, container_levels(es))
}

/// Builds the nodes for `entries[from..to]`.
fn build_range(entries: &[FlatEntry], from: usize, to: usize, levels: &Vec<u8>) -> (r: Vec<Node>)
    requires
        from <= to <= entries@.len(),
    ensures
        nodes_view(r@) == forest(entries_view(entries@), from as int, to as int, levels@),
    decreases to - from,
{
    let mut out: Vec<Node> = Vec::new();
    let mut i = from;
    while i < to
        invariant
            from <= i <= to <= entries@.len(),
            nodes_view(out@) + forest(entries_view(entries@), i as int, to as int, levels@) == forest(
                entries_view(entries@),
                from as int,
                to as int,
                levels@,
            ),
        decreases to - i,
    {
        let lvl = entries[i].level;
        let mut j = i + 1;
        while j < to && entries[j].level > lvl
            invariant
                i < j <= to <= entries@.len(),
                lvl == entries@[i as int].level,
                forall|k: int| i + 1 <= k < j ==> entries@[k].level > lvl,
            decreases to - j,
        {
            j = j + 1;
        }
        proof {
            lemma_scan_deeper_at(entries_view(entries@), lvl, i + 1, j as int, to as int);
        }
        let children = build_range(entries, i + 1, j, levels);
        let node = make_node(&entries[i], children, contains_level(levels, lvl));
        let ghost before = nodes_view(out@);
        let ghost prev = out@;
        out.push(node);
        proof {
            assert(out@.drop_last() =~= prev);
            assert(nodes_view(out@) == before.push(node_view(node)));
            let ev = entries_view(entries@);
            assert(forest(ev, i as int, to as int, levels@) == seq![node_view(node)] + forest(
                ev,
                j as int,
                to as int,
                levels@,
            ));
            assert(before + (seq![node_view(node)] + forest(ev, j as int, to as int, levels@))
                =~= before.push(node_view(node)) + forest(ev, j as int, to as int, levels@));
        }
        i = j;
    }
    proof {
        assert(nodes_view(out@) + Seq::<SpecNode>::empty() =~= nodes_view(out@));
    }
    out
}

/// The name of an entry.
pub open spec fn entry_name(e: SpecEntry) -> Seq<char> {
    e.name
}

proof fn lemma_forest_names(es: Seq<SpecEntry>, from: int, to: int, levels: Seq<u8>)
    requires
        0 <= from <= to <= es.len(),
    ensures
        preorder_names(forest(es, from, to, levels)) == es.subrange(from, to).map_values(
            |e: SpecEntry| entry_name(e),
        ),
    decreases to - from,
{
    if from == to {
        assert(es.subrange(from, to).map_values(|e: SpecEntry| entry_name(e)) =~= Seq::<
            Seq<char>,
        >::empty());
    } else {
        let j = subtree_end(es, from, to);
        lemma_scan_deeper(es, es[from].level, from + 1, to);
        lemma_forest_names(es, from + 1, j, levels);
        lemma_forest_names(es, j, to, levels);
        let kids = forest(es, from + 1, j, levels);
        let node = node_of(es[from], kids, levels.contains(es[from].level));
        let rest = forest(es, j, to, levels);
        let f = forest(es, from, to, levels);
        assert(f == seq![node] + rest);
        lemma_preorder_append(seq![node], rest);
        assert(seq![node].drop_last() =~= Seq::<SpecNode>::empty());
        assert(seq![node].last() == node);
        assert(preorder_names(Seq::<SpecNode>::empty()) =~= Seq::<Seq<char>>::empty());
        assert(preorder_names(seq![node]) =~= preorder_names_of(node));
        assert(preorder_names_of(node) == seq![es[from].name] + preorder_names(kids)) by {
            if kids.len() == 0 {
                assert(preorder_names(kids) =~= Seq::<Seq<char>>::empty());
            }
        }
        assert(es.subrange(from, to).map_values(|e: SpecEntry| entry_name(e)) =~= seq![
            es[from].name,
        ] + es.subrange(from + 1, j).map_values(|e: SpecEntry| entry_name(e)) + es.subrange(
            j,
            to,
        ).map_values(|e: SpecEntry| entry_name(e)));
    }
}

/// Every entry becomes exactly one node of the tree, and listing the nodes
/// of the tree with each node before its children gives back the entries
/// in the order in which they were written.
pub proof fn lemma_tree_keeps_entries(es: Seq<SpecEntry>)
    ensures
        preorder_names(tree_of(es)) == es.map_values(|e: SpecEntry| entry_name(e)),
{
    lemma_forest_names(es, 0, es.len() as int, container_levels(es));
    assert(es.subrange(0, es.len() as int) =~= es);
}

/// Builds the tree of nodes from level-numbered entries.
pub fn build_tree(entries: &[FlatEntry]) -> (r: Vec<Node>)
    ensures
        nodes_view(r@) == tree_of(entries_view(entries@)),
{
    let levels = find_container_levels(entries);
    build_range(entries, 0, entries.len(), &levels)
}

/// A leaf entry with a PIC clause and no action or navigation becomes an
/// input field carrying that PIC clause, its value, binding and colours: a
/// numeric field exactly when the clause is `PIC 9`, a text field for
/// `PIC X` and `PIC A`.
pub proof fn lemma_field_kind(e: SpecEntry, is_container: bool)
    requires
        e.pic is Some,
        e.action is None,
        e.navigate is None,
    ensures
        ({
            let n = node_of(e, seq![], is_container);
            let style = Style { fg_color: e.fg_color, bg_color: e.bg_color };
            &&& e.pic.unwrap().kind == PicKind::Numeric ==> n == SpecNode::Numeric {
                name: e.name,
                pic: e.pic.unwrap(),
                value: e.value,
                binding: e.binding,
                style,
            }
            &&& e.pic.unwrap().kind == PicKind::Alphanumeric ==> n == SpecNode::Text {
                name: e.name,
                pic: e.pic.unwrap(),
                value: e.value,
                binding: e.binding,
                style,
            }
            &&& e.pic.unwrap().kind == PicKind::Alphabetic ==> n == SpecNode::Text {
                name: e.name,
                pic: e.pic.unwrap(),
                value: e.value,
                binding: e.binding,
                style,
            }
        }),
{
}

} // verus!
