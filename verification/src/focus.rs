//! Keyboard focus over the interactive elements of a screen.
//!
//! The elements that can take the focus are the leaves of the screen's
//! tree (text fields, numeric fields and buttons), in the order in which a
//! depth-first walk meets them. Tab moves the focus forward and Shift-Tab
//! back, both wrapping around.
use crate::ir::{Node, PicClause, PicKind};
use crate::model::{lemma_nodes_view, node_view, nodes_view, opt_view, SpecNode};
use crate::tree::clone_opt;
use vstd::prelude::*;

verus! {

/// What kind of input an element takes.
#[derive(Debug, Clone, Copy, PartialEq, Eq, Structural)]
pub enum FocusKind {
    TextInput,
    /// A text field of a `PIC A` clause: letters and spaces only.
    AlphabeticInput,
    NumericInput,
    Button,
}

/// The kind of input a text field takes, by its PIC clause.
pub open spec fn text_kind(pic: PicClause) -> FocusKind {
    if pic.kind == PicKind::Alphabetic {
        FocusKind::AlphabeticInput
    } else {
        FocusKind::TextInput
    }
}

/// An element that can take the focus.
#[derive(Debug)]
pub struct FocusableElement {
    pub name: String,
    pub kind: FocusKind,
    /// The variable that typing into the element edits.
    pub binding: Option<String>,
    /// The paragraph that activating a button performs.
    pub action: Option<String>,
    /// The screen that activating a button shows.
    pub navigate: Option<String>,
}

/// The model of a `FocusableElement`.
pub struct SpecFocusable {
    pub name: Seq<char>,
    pub kind: FocusKind,
    pub binding: Option<Seq<char>>,
    pub action: Option<Seq<char>>,
    pub navigate: Option<Seq<char>>,
}

/// The model of an element.
pub open spec fn focusable_view(e: FocusableElement) -> SpecFocusable {
    SpecFocusable {
        name: e.name@,
        kind: e.kind,
        binding: opt_view(e.binding),
        action: opt_view(e.action),
        navigate: opt_view(e.navigate),
    }
}

/// The models of a sequence of elements.
pub open spec fn focusables_view(es: Seq<FocusableElement>) -> Seq<SpecFocusable> {
    es.map_values(|e: FocusableElement| focusable_view(e))
}

/// The elements of a tree that can take the focus, in depth-first order.
pub open spec fn focusables_of(n: SpecNode) -> Seq<SpecFocusable>
    decreases n,
{
    match n {
        SpecNode::Container { children, .. } => focusables(children),
        SpecNode::Text { name, pic, binding, .. } => seq![
            SpecFocusable {
                name,
                kind: text_kind(pic),
                binding,
                action: None,
                navigate: None,
            },
        ],
        SpecNode::Numeric { name, binding, .. } => seq![
            SpecFocusable {
                name,
                kind: FocusKind::NumericInput,
                binding,
                action: None,
                navigate: None,
            },
        ],
        SpecNode::Button { name, action, navigate, .. } => seq![
            SpecFocusable { name, kind: FocusKind::Button, binding: None, action, navigate },
        ],
    }
}

/// The focusable elements of a forest, tree after tree.
pub open spec fn focusables(ns: Seq<SpecNode>) -> Seq<SpecFocusable>
    decreases ns,
{
    if ns.len() == 0 {
        seq![]
    } else {
        focusables(ns.drop_last()) + focusables_of(ns.last())
    }
}

/// Appends the elements of `node` that can take the focus to `elements`,
/// in depth-first order.
pub fn collect_focusable(node: &Node, elements: &mut Vec<FocusableElement>)
    ensures
        focusables_view(final(elements)@) == focusables_view(old(elements)@) + focusables_of(
            node_view(*node),
        ),
    decreases node,
{
    match node {
        Node::Container { children, .. } => {
            proof { lemma_nodes_view(children@); }
            let ghost cv = nodes_view(children@);
            let ghost start = focusables_view(elements@);
            assert(cv.take(0) =~= Seq::<SpecNode>::empty());
            assert(start + focusables(cv.take(0)) =~= start);
            let mut i: usize = 0;
            while i < children.len()
                invariant
                    i <= children.len(),
                    *node is Container,
                    (*node)->children == *children,
                    cv == nodes_view(children@),
                    cv.len() == children.len(),
                    forall|j: int| 0 <= j < children.len() ==> #[trigger] cv[j] == node_view(
                        children@[j],
                    ),
                    focusables_view(elements@) == start + focusables(cv.take(i as int)),
                decreases children.len() - i,
            {
                proof {
                    assert(decreases_to!(*node => (*node)->children));
                    assert(decreases_to!(*children => children@));
                    assert(decreases_to!(children@ => children@[i as int]));
                }
                collect_focusable(&children[i], elements);
                assert(cv.take(i + 1).drop_last() =~= cv.take(i as int));
                assert(cv.take(i + 1).last() == node_view(children@[i as int]));
                assert(start + focusables(cv.take(i as int)) + focusables_of(
                    node_view(children@[i as int]),
                ) =~= start + focusables(cv.take(i + 1)));
                i = i + 1;
            }
            assert(cv.take(children.len() as int) =~= cv);
        },
        Node::Text { name, pic, binding, .. } => {
            let ghost before = elements@;
            let kind = match pic.kind {
                PicKind::Alphabetic => FocusKind::AlphabeticInput,
                _ => FocusKind::TextInput,
            };
            elements.push(
                FocusableElement {
                    name: name.clone(),
                    kind,
                    binding: clone_opt(binding),
                    action: None,
                    navigate: None,
                },
            );
            assert(focusables_view(elements@) =~= focusables_view(before) + focusables_of(
                node_view(*node),
            ));
        },
        Node::Numeric { name, binding, .. } => {
            let ghost before = elements@;
            elements.push(
                FocusableElement {
                    name: name.clone(),
                    kind: FocusKind::NumericInput,
                    binding: clone_opt(binding),
                    action: None,
                    navigate: None,
                },
            );
            assert(focusables_view(elements@) =~= focusables_view(before) + focusables_of(
                node_view(*node),
            ));
        },
        Node::Button { name, action, navigate, .. } => {
            let ghost before = elements@;
            elements.push(
                FocusableElement {
                    name: name.clone(),
                    kind: FocusKind::Button,
                    binding: None,
                    action: clone_opt(action),
                    navigate: clone_opt(navigate),
                },
            );
            assert(focusables_view(elements@) =~= focusables_view(before) + focusables_of(
                node_view(*node),
            ));
        },
    }
}

/// The position after `i` among `n` elements, wrapping around.
pub open spec fn next_index(i: nat, n: nat) -> nat {
    if n == 0 {
        i
    } else {
        ((i + 1) % n) as nat
    }
}

/// The position before `i` among `n` elements, wrapping around.
pub open spec fn prev_index(i: nat, n: nat) -> nat {
    if n == 0 {
        i
    } else if i == 0 {
        (n - 1) as nat
    } else {
        (i - 1) as nat
    }
}

/// The focusable elements of a screen and the position of the focused one.
#[derive(Debug)]
pub struct FocusState {
    elements: Vec<FocusableElement>,
    index: usize,
}

impl FocusState {
    /// The focused position is always that of an element, or zero when
    /// there is none.
    #[verifier::type_invariant]
    spec fn index_in_range(self) -> bool {
        self.index < self.elements.len() || (self.elements.len() == 0 && self.index == 0)
    }

    /// The elements, in focus order.
    pub closed spec fn items(self) -> Seq<SpecFocusable> {
        focusables_view(self.elements@)
    }

    /// The position of the focused element.
    pub closed spec fn pos(self) -> nat {
        self.index as nat
    }

    /// The position of the focused element: that of an element, or zero
    /// when there is none.
    pub fn position(&self) -> (r: usize)
        ensures
            r == self.pos(),
            r < self.items().len() || (self.items().len() == 0 && r == 0),
    {
        proof { use_type_invariant(self); }
        self.index
    }

    /// No elements, and the focus on position zero.
    pub fn new() -> (r: Self)
        ensures
            r.items() == Seq::<SpecFocusable>::empty(),
            r.pos() == 0,
    {
        let r = FocusState { elements: Vec::new(), index: 0 };
        assert(r.items() =~= Seq::<SpecFocusable>::empty());
        r
    }

    /// The elements of the tree under `root`, with the focus on the first.
    pub fn for_root(root: &Node) -> (r: Self)
        ensures
            r.items() == focusables_of(node_view(*root)),
            r.pos() == 0,
    {
        let mut elements: Vec<FocusableElement> = Vec::new();
        assert(focusables_view(elements@) =~= Seq::<SpecFocusable>::empty());
        collect_focusable(root, &mut elements);
        assert(Seq::<SpecFocusable>::empty() + focusables_of(node_view(*root)) =~= focusables_of(
            node_view(*root),
        ));
        FocusState { elements, index: 0 }
    }

    /// The focused element, if there is any element.
    pub fn current(&self) -> (r: Option<&FocusableElement>)
        ensures
            match r {
                Some(e) => self.pos() < self.items().len() && focusable_view(*e)
                    == self.items()[self.pos() as int],
                None => self.items().len() == 0,
            },
    {
        proof { use_type_invariant(self); }
        if self.index < self.elements.len() {
            Some(&self.elements[self.index])
        } else {
            None
        }
    }

    /// Moves the focus to the next element, from the last back to the first.
    pub fn next(&mut self)
        ensures
            final(self).items() == old(self).items(),
            final(self).pos() == next_index(old(self).pos(), old(self).items().len()),
    {
        proof { use_type_invariant(&*self); }
        if self.elements.len() > 0 {
            self.index = (self.index + 1) % self.elements.len();
        }
    }

    /// Moves the focus to the previous element, from the first to the last.
    pub fn prev(&mut self)
        ensures
            final(self).items() == old(self).items(),
            final(self).pos() == prev_index(old(self).pos(), old(self).items().len()),
    {
        proof { use_type_invariant(&*self); }
        if self.elements.len() > 0 {
            self.index = if self.index == 0 {
                self.elements.len() - 1
            } else {
                self.index - 1
            };
        }
    }
}

/// Moving the focus forward and then back returns it to where it was, and
/// so does moving it back and then forward.
pub proof fn lemma_next_prev_inverse(i: nat, n: nat)
    requires
        i < n || (n == 0 && i == 0),
    ensures
        prev_index(next_index(i, n), n) == i,
        next_index(prev_index(i, n), n) == i,
{
    if n > 0 {
        if i + 1 < n {
            assert((i + 1) % n == i + 1) by (nonlinear_arith)
                requires
                    0 <= i + 1 < n,
            ;
        } else {
            assert((i + 1) % n == 0) by (nonlinear_arith)
                requires
                    i + 1 == n,
                    n > 0,
            ;
        }
        if i == 0 {
            assert((((n - 1) as nat) + 1) % n == 0) by (nonlinear_arith)
                requires
                    n > 0,
            ;
        } else {
            assert((((i - 1) as nat) + 1) % n == i) by (nonlinear_arith)
                requires
                    0 < i < n,
            ;
        }
    }
}

/// Moving the focus keeps it on an element.
pub proof fn lemma_moves_stay_in_range(i: nat, n: nat)
    requires
        i < n,
    ensures
        next_index(i, n) < n,
        prev_index(i, n) < n,
{
    assert((i + 1) % n < n) by (nonlinear_arith)
        requires
            n > 0,
    ;
}

} // verus!
