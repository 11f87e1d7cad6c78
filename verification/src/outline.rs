//! The report of the `check` command: a summary of an application and an
//! indented outline of each screen's tree.
use crate::ir::{CobaltApp, Node, Screen};
use crate::model::{lemma_nodes_view, node_view, nodes_view, SpecNode};
use crate::text::{decimal, push_decimal, push_repeat, push_str};
use vstd::prelude::*;

verus! {

/// The models of lines of text.
pub open spec fn lines_view(ls: Seq<String>) -> Seq<Seq<char>> {
    ls.map_values(|l: String| l@)
}

/// `n` spaces.
pub open spec fn spaces(n: nat) -> Seq<char> {
    Seq::new(n, |i: int| ' ')
}

/// ` USING b` for a bound field, nothing otherwise.
pub open spec fn using_suffix(b: Option<Seq<char>>) -> Seq<char> {
    match b {
        Some(b) => " USING "@ + b,
        None => seq![],
    }
}

/// ` -> a` for a button with an action, nothing otherwise.
pub open spec fn action_suffix(a: Option<Seq<char>>) -> Seq<char> {
    match a {
        Some(a) => " -> "@ + a,
        None => seq![],
    }
}

/// The outline of a tree indented by `indent`: one line per node, each
/// node before its children, children indented two more.
pub open spec fn outline_of(n: SpecNode, indent: nat) -> Seq<Seq<char>>
    decreases n,
{
    match n {
        SpecNode::Container { name, children, .. } => seq![
            spaces(indent) + "[Container] "@ + name,
        ] + outline_all(children, indent + 2),
        SpecNode::Text { name, pic, binding, .. } => seq![
            spaces(indent) + "[Text] "@ + name + " PIC X("@ + decimal(pic.width as nat) + ")"@
                + using_suffix(binding),
        ],
        SpecNode::Numeric { name, pic, binding, .. } => seq![
            spaces(indent) + "[Numeric] "@ + name + " PIC 9("@ + decimal(pic.width as nat) + ")"@
                + using_suffix(binding),
        ],
        SpecNode::Button { name, label, action, .. } => seq![
            spaces(indent) + "[Button] "@ + name + " label=\""@ + label + "\""@ + action_suffix(
                action,
            ),
        ],
    }
}

/// The outlines of a forest, tree after tree.
pub open spec fn outline_all(ns: Seq<SpecNode>, indent: nat) -> Seq<Seq<char>>
    decreases ns,
{
    if ns.len() == 0 {
        seq![]
    } else {
        outline_all(ns.drop_last(), indent) + outline_of(ns.last(), indent)
    }
}

/// The number of levels of a tree.
pub open spec fn node_height(n: SpecNode) -> nat
    decreases n,
{
    match n {
        SpecNode::Container { children, .. } => 1 + forest_height(children),
        _ => 1,
    }
}

/// The greatest height of the trees of a forest.
pub open spec fn forest_height(ns: Seq<SpecNode>) -> nat
    decreases ns,
{
    if ns.len() == 0 {
        0
    } else {
        let a = forest_height(ns.drop_last());
        let b = node_height(ns.last());
        if a >= b {
            a
        } else {
            b
        }
    }
}

proof fn lemma_forest_height(ns: Seq<SpecNode>, i: int)
    requires
        0 <= i < ns.len(),
    ensures
        node_height(ns[i]) <= forest_height(ns),
    decreases ns.len(),
{
    if i < ns.len() - 1 {
        lemma_forest_height(ns.drop_last(), i);
    }
}

/// Appends the outline of the tree under `node`, indented by `indent`, to `out`.
pub fn tree_lines(node: &Node, indent: usize, out: &mut Vec<String>)
    requires
        indent + 2 * node_height(node_view(*node)) <= usize::MAX,
    ensures
        lines_view(final(out)@) == lines_view(old(out)@) + outline_of(node_view(*node), indent as nat),
    decreases node,
{
    let mut line = String::new();
    push_repeat(&mut line, ' ', indent);
    assert(Seq::new(indent as nat, |i: int| ' ') =~= spaces(indent as nat));
    match node {
        Node::Container { name, children, .. } => {
            push_str(&mut line, "[Container] ");
            push_str(&mut line, name.as_str());
            let ghost start = lines_view(out@);
            let ghost first = line@;
            out.push(line);
            assert(lines_view(out@) =~= start + seq![first]);
            proof { lemma_nodes_view(children@); }
            let ghost cv = nodes_view(children@);
            assert(cv.take(0) =~= Seq::<SpecNode>::empty());
            assert(start + seq![first] + outline_all(cv.take(0), (indent + 2) as nat) =~= start
                + seq![first]);
            let mut i: usize = 0;
            while i < children.len()
                invariant
                    i <= children.len(),
                    *node is Container,
                    (*node)->children == *children,
                    cv == nodes_view(children@),
                    cv.len() == children.len(),
                    forall|j: int| 0 <= j < children.len() ==> #[trigger] cv[j] == node_view(
                        children@[j],
                    ),
                    indent + 2 * node_height(node_view(*node)) <= usize::MAX,
                    node_height(node_view(*node)) == 1 + forest_height(cv),
                    lines_view(out@) == start + seq![first] + outline_all(
                        cv.take(i as int),
                        (indent + 2) as nat,
                    ),
                decreases children.len() - i,
            {
                proof {
                    assert(decreases_to!(*node => (*node)->children));
                    assert(decreases_to!(*children => children@));
                    assert(decreases_to!(children@ => children@[i as int]));
                    lemma_forest_height(cv, i as int);
                }
                tree_lines(&children[i], indent + 2, out);
                assert(cv.take(i + 1).drop_last() =~= cv.take(i as int));
                assert(cv.take(i + 1).last() == node_view(children@[i as int]));
                assert(start + seq![first] + outline_all(cv.take(i as int), (indent + 2) as nat)
                    + outline_of(node_view(children@[i as int]), (indent + 2) as nat) =~= start
                    + seq![first] + outline_all(cv.take(i + 1), (indent + 2) as nat));
                i = i + 1;
            }
            assert(cv.take(children.len() as int) =~= cv);
            assert(start + seq![first] + outline_all(cv, (indent + 2) as nat) =~= start
                + outline_of(node_view(*node), indent as nat));
        },
        Node::Text { name, pic, binding, .. } => {
            push_str(&mut line, "[Text] ");
            push_str(&mut line, name.as_str());
            push_str(&mut line, " PIC X(");
            push_decimal(&mut line, pic.width as u64);
            push_str(&mut line, ")");
            match binding {
                Some(b) => {
                    push_str(&mut line, " USING ");
                    push_str(&mut line, b.as_str());
                },
                None => {},
            }
            let ghost start = lines_view(out@);
            assert(line@ =~= outline_of(node_view(*node), indent as nat)[0]);
            out.push(line);
            assert(lines_view(out@) =~= start + outline_of(node_view(*node), indent as nat));
        },
        Node::Numeric { name, pic, binding, .. } => {
            push_str(&mut line, "[Numeric] ");
            push_str(&mut line, name.as_str());
            push_str(&mut line, " PIC 9(");
            push_decimal(&mut line, pic.width as u64);
            push_str(&mut line, ")");
            match binding {
                Some(b) => {
                    push_str(&mut line, " USING ");
                    push_str(&mut line, b.as_str());
                },
                None => {},
            }
            let ghost start = lines_view(out@);
            assert(line@ =~= outline_of(node_view(*node), indent as nat)[0]);
            out.push(line);
            assert(lines_view(out@) =~= start + outline_of(node_view(*node), indent as nat));
        },
        Node::Button { name, label, action, .. } => {
            push_str(&mut line, "[Button] ");
            push_str(&mut line, name.as_str());
            push_str(&mut line, " label=\"");
            push_str(&mut line, label.as_str());
            push_str(&mut line, "\"");
            match action {
                Some(a) => {
                    push_str(&mut line, " -> ");
                    push_str(&mut line, a.as_str());
                },
                None => {},
            }
            let ghost start = lines_view(out@);
            assert(line@ =~= outline_of(node_view(*node), indent as nat)[0]);
            out.push(line);
            assert(lines_view(out@) =~= start + outline_of(node_view(*node), indent as nat));
        },
    }
}

/// The lines that a screen contributes to the report.
pub open spec fn screen_report(s: Screen) -> Seq<Seq<char>> {
    seq!["  Screen: "@ + s.name@] + outline_of(node_view(s.root), 2)
}

/// The reports of the screens, in order.
pub open spec fn screens_report(ss: Seq<Screen>) -> Seq<Seq<char>>
    decreases ss.len(),
{
    if ss.len() == 0 {
        seq![]
    } else {
        screens_report(ss.drop_last()) + screen_report(ss.last())
    }
}

/// The report on a valid application: the numbers of its screens, state
/// fields and handlers, then each screen's name and outline.
pub open spec fn check_report(app: CobaltApp) -> Seq<Seq<char>> {
    seq![
        "  "@ + decimal(app.screens.len() as nat) + " screen(s), "@ + decimal(
            app.state.size(),
        ) + " state field(s), "@ + decimal(app.handlers.len() as nat) + " handler(s)"@,
    ] + screens_report(app.screens@)
}

/// Whether the outline of every screen fits the machine's indentation.
pub open spec fn outlines_fit(app: CobaltApp) -> bool {
    forall|i: int|
        0 <= i < app.screens.len() ==> 2 + 2 * node_height(node_view(#[trigger] app.screens@[i].root))
            <= usize::MAX
}

/// The lines of the report on a valid application.
pub fn check_summary(app: &CobaltApp) -> (r: Vec<String>)
    requires
        outlines_fit(*app),
    ensures
        lines_view(r@) == check_report(*app),
{
    let mut out: Vec<String> = Vec::new();
    let mut head = String::new();
    push_str(&mut head, "  ");
    push_decimal(&mut head, app.screens.len() as u64);
    push_str(&mut head, " screen(s), ");
    push_decimal(&mut head, app.state.len() as u64);
    push_str(&mut head, " state field(s), ");
    push_decimal(&mut head, app.handlers.len() as u64);
    push_str(&mut head, " handler(s)");
    let ghost h = head@;
    out.push(head);
    assert(lines_view(out@) =~= seq![h]);
    let mut i: usize = 0;
    assert(app.screens@.take(0) =~= Seq::<Screen>::empty());
    while i < app.screens.len()
        invariant
            i <= app.screens.len(),
            outlines_fit(*app),
            lines_view(out@) == seq![h] + screens_report(app.screens@.take(i as int)),
        decreases app.screens.len() - i,
    {
        let screen = &app.screens[i];
        let mut title = String::new();
        push_str(&mut title, "  Screen: ");
        push_str(&mut title, screen.name.as_str());
        let ghost before = lines_view(out@);
        let ghost t = title@;
        out.push(title);
        assert(lines_view(out@) =~= before + seq![t]);
        assert(2 + 2 * node_height(node_view(app.screens@[i as int].root)) <= usize::MAX);
        tree_lines(&screen.root, 2, &mut out);
        assert(app.screens@.take(i + 1).drop_last() =~= app.screens@.take(i as int));
        assert(before + seq![t] + outline_of(node_view(screen.root), 2) =~= seq![h]
            + screens_report(app.screens@.take(i + 1)));
        i = i + 1;
    }
    assert(app.screens@.take(app.screens.len() as int) =~= app.screens@);
    out
}

} // verus!
