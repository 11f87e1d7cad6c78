//! How a screen looks: what the terminal front end draws for each node.
//!
//! A container is drawn as a bordered frame titled with its name, its
//! children stacked in rows inside it (a nested container takes at least
//! three rows, any other node one). A text field shows its name and its
//! value left-aligned in a field of its PIC width, a numeric field right-
//! aligned; a button shows its label in brackets. The focused element is
//! marked with ` <` and drawn reversed (a button also bold).
use crate::focus::FocusState;
use crate::interp::vars_of;
use crate::ir::{Node, RuntimeState};
use crate::model::{lemma_nodes_view, node_view, nodes_view, SpecNode};
use crate::text::{pad_left, pad_right, push_padded_left, push_padded_right, push_str};
use vstd::prelude::*;

verus! {

/// A terminal colour.
#[derive(Debug, Clone, Copy, PartialEq, Eq, Structural)]
pub enum Color {
    /// The terminal's own colour.
    Reset,
    Black,
    Blue,
    White,
    Gray,
    DarkGray,
    Cyan,
    Green,
    Red,
}

/// The colour of a palette index.
pub open spec fn color_of(index: Option<u8>) -> Color {
    match index {
        Some(0) => Color::Black,
        Some(1) => Color::Blue,
        Some(2) => Color::White,
        Some(3) => Color::Gray,
        Some(4) => Color::DarkGray,
        Some(5) => Color::Cyan,
        Some(6) => Color::Green,
        Some(7) => Color::Red,
        _ => Color::Reset,
    }
}

/// The colour of a palette index: indices 0 to 7 name colours, anything
/// else (or none) is the terminal's own colour.
pub fn map_color(index: Option<u8>) -> (c: Color)
    ensures
        c == color_of(index),
{
    match index {
        Some(0) => Color::Black,
        Some(1) => Color::Blue,
        Some(2) => Color::White,
        Some(3) => Color::Gray,
        Some(4) => Color::DarkGray,
        Some(5) => Color::Cyan,
        Some(6) => Color::Green,
        Some(7) => Color::Red,
        _ => Color::Reset,
    }
}

/// How a line of text is emphasised.
#[derive(Debug, Clone, Copy, PartialEq, Eq, Structural)]
pub enum Emphasis {
    Plain,
    Reversed,
    BoldReversed,
}

/// The height that a child takes in its container.
#[derive(Debug, Clone, Copy, PartialEq, Eq, Structural)]
pub enum Extent {
    /// At least this many rows.
    Min(u16),
    /// Exactly this many rows.
    Length(u16),
}

/// What is drawn for a node.
#[derive(Debug)]
pub enum Look {
    /// A bordered frame; its children go in rows of the given extents.
    Frame { title: String, border: Color, background: Color, rows: Vec<Extent> },
    /// One line of text.
    Line { text: String, fg: Color, bg: Color, emphasis: Emphasis },
}

/// The model of a `Look`.
pub enum SpecLook {
    Frame { title: Seq<char>, border: Color, background: Color, rows: Seq<Extent> },
    Line { text: Seq<char>, fg: Color, bg: Color, emphasis: Emphasis },
}

pub open spec fn look_view(l: Look) -> SpecLook {
    match l {
        Look::Frame { title, border, background, rows } => SpecLook::Frame {
            title: title@,
            border,
            background,
            rows: rows@,
        },
        Look::Line { text, fg, bg, emphasis } => SpecLook::Line { text: text@, fg, bg, emphasis },
    }
}

/// The extent of a child: three rows at least for a container, one row
/// for anything else.
pub open spec fn extent_of(n: SpecNode) -> Extent {
    match n {
        SpecNode::Container { .. } => Extent::Min(3),
        _ => Extent::Length(1),
    }
}

/// The value a field shows: its variable's value when it is bound to a
/// variable that has one, else its own value, else `default`.
pub open spec fn shown_value(
    binding: Option<Seq<char>>,
    value: Option<Seq<char>>,
    vars: Map<Seq<char>, Seq<char>>,
    default: Seq<char>,
) -> Seq<char> {
    match binding {
        Some(b) if vars.contains_key(b) => vars[b],
        _ => match value {
            Some(v) => v,
            None => default,
        },
    }
}

/// The focus marker.
pub open spec fn marker(focused: bool) -> Seq<char> {
    if focused {
        " <"@
    } else {
        seq![]
    }
}

/// Whether the focused element is named `name`.
pub open spec fn is_focused(focused: Option<Seq<char>>, name: Seq<char>) -> bool {
    focused == Some(name)
}

/// The emphasis of a field line.
pub open spec fn field_emphasis(focused: bool) -> Emphasis {
    if focused {
        Emphasis::Reversed
    } else {
        Emphasis::Plain
    }
}

/// What is drawn for a node, given the variables and the name of the
/// focused element.
pub open spec fn look_of(n: SpecNode, vars: Map<Seq<char>, Seq<char>>, focused: Option<Seq<char>>) -> SpecLook {
    match n {
        SpecNode::Container { name, children, style } => SpecLook::Frame {
            title: " "@ + name + " "@,
            border: color_of(style.fg_color),
            background: color_of(style.bg_color),
            rows: children.map_values(|c: SpecNode| extent_of(c)),
        },
        SpecNode::Text { name, pic, value, binding, style } => SpecLook::Line {
            text: name + ": ["@ + pad_right(shown_value(binding, value, vars, seq![]), pic.width as nat)
                + "]"@ + marker(is_focused(focused, name)),
            fg: color_of(style.fg_color),
            bg: color_of(style.bg_color),
            emphasis: field_emphasis(is_focused(focused, name)),
        },
        SpecNode::Numeric { name, pic, value, binding, style } => SpecLook::Line {
            text: name + ": ["@ + pad_left(shown_value(binding, value, vars, "0"@), pic.width as nat)
                + "]"@ + marker(is_focused(focused, name)),
            fg: color_of(style.fg_color),
            bg: color_of(style.bg_color),
            emphasis: field_emphasis(is_focused(focused, name)),
        },
        SpecNode::Button { name, label, style, .. } => SpecLook::Line {
            text: "[ "@ + label + " ]"@ + marker(is_focused(focused, name)),
            fg: color_of(style.fg_color),
            bg: color_of(style.bg_color),
            emphasis: if is_focused(focused, name) {
                Emphasis::BoldReversed
            } else {
                Emphasis::Plain
            },
        },
    }
}

/// The name of the focused element, if there is one.
pub open spec fn focused_name(f: FocusState) -> Option<Seq<char>> {
    if f.pos() < f.items().len() {
        Some(f.items()[f.pos() as int].name)
    } else {
        None
    }
}

fn focused_on(focus: &FocusState, name: &String) -> (b: bool)
    ensures
        b == is_focused(focused_name(*focus), name@),
{
    match focus.current() {
        Some(e) => e.name == *name,
        None => false,
    }
}

/// Appends the value a field shows.
fn push_shown(
    out: &mut String,
    binding: &Option<String>,
    value: &Option<String>,
    state: &RuntimeState,
    default: &str,
    width: usize,
    right_align: bool,
)
    ensures
        final(out)@ == old(out)@ + (if right_align {
            pad_left(
                shown_value(
                    crate::model::opt_view(*binding),
                    crate::model::opt_view(*value),
                    vars_of(*state),
                    default@,
                ),
                width as nat,
            )
        } else {
            pad_right(
                shown_value(
                    crate::model::opt_view(*binding),
                    crate::model::opt_view(*value),
                    vars_of(*state),
                    default@,
                ),
                width as nat,
            )
        }),
{
    let bound: Option<&String> = match binding {
        Some(b) => state.get(b.as_str()),
        None => None,
    };
    let shown: &str = match bound {
        Some(v) => v.as_str(),
        None => match value {
            Some(v) => v.as_str(),
            None => default,
        },
    };
    if right_align {
        push_padded_left(out, shown, width);
    } else {
        push_padded_right(out, shown, width);
    }
}

/// What is drawn for `node` with the variables of `state` and the focus
/// of `focus`.
pub fn node_look(node: &Node, state: &RuntimeState, focus: &FocusState) -> (r: Look)
    ensures
        look_view(r) == look_of(node_view(*node), vars_of(*state), focused_name(*focus)),
{
    match node {
        Node::Container { name, children, style } => {
            let mut title = String::new();
            push_str(&mut title, " ");
            push_str(&mut title, name.as_str());
            push_str(&mut title, " ");
            proof { lemma_nodes_view(children@); }
            let ghost cv = nodes_view(children@);
            let mut rows: Vec<Extent> = Vec::new();
            let mut i: usize = 0;
            while i < children.len()
                invariant
                    i <= children.len(),
                    cv == nodes_view(children@),
                    cv.len() == children.len(),
                    forall|j: int| 0 <= j < children.len() ==> #[trigger] cv[j] == node_view(
                        children@[j],
                    ),
                    rows@ == cv.take(i as int).map_values(|c: SpecNode| extent_of(c)),
                decreases children.len() - i,
            {
                let e = match &children[i] {
                    Node::Container { .. } => Extent::Min(3),
                    _ => Extent::Length(1),
                };
                rows.push(e);
                assert(cv.take(i + 1).map_values(|c: SpecNode| extent_of(c)) =~= cv.take(
                    i as int,
                ).map_values(|c: SpecNode| extent_of(c)).push(extent_of(cv[i as int])));
                i = i + 1;
            }
            assert(cv.take(children.len() as int) =~= cv);
            Look::Frame {
                title,
                border: map_color(style.fg_color),
                background: map_color(style.bg_color),
                rows,
            }
        },
        Node::Text { name, pic, value, binding, style } => {
            let focused = focused_on(focus, name);
            let mut text = String::new();
            push_str(&mut text, name.as_str());
            push_str(&mut text, ": [");
            push_shown(&mut text, binding, value, state, "", pic.width, false);
            proof { reveal_strlit(""); }
            push_str(&mut text, "]");
            if focused {
                push_str(&mut text, " <");
            }
            assert(text@ =~= look_of(node_view(*node), vars_of(*state), focused_name(*focus))->Line_text);
            Look::Line {
                text,
                fg: map_color(style.fg_color),
                bg: map_color(style.bg_color),
                emphasis: if focused {
                    Emphasis::Reversed
                } else {
                    Emphasis::Plain
                },
            }
        },
        Node::Numeric { name, pic, value, binding, style } => {
            let focused = focused_on(focus, name);
            let mut text = String::new();
            push_str(&mut text, name.as_str());
            push_str(&mut text, ": [");
            push_shown(&mut text, binding, value, state, "0", pic.width, true);
            push_str(&mut text, "]");
            if focused {
                push_str(&mut text, " <");
            }
            assert(text@ =~= look_of(node_view(*node), vars_of(*state), focused_name(*focus))->Line_text);
            Look::Line {
                text,
                fg: map_color(style.fg_color),
                bg: map_color(style.bg_color),
                emphasis: if focused {
                    Emphasis::Reversed
                } else {
                    Emphasis::Plain
                },
            }
        },
        Node::Button { name, label, style, .. } => {
            let focused = focused_on(focus, name);
            let mut text = String::new();
            push_str(&mut text, "[ ");
            push_str(&mut text, label.as_str());
            push_str(&mut text, " ]");
            if focused {
                push_str(&mut text, " <");
            }
            assert(text@ =~= look_of(node_view(*node), vars_of(*state), focused_name(*focus))->Line_text);
            Look::Line {
                text,
                fg: map_color(style.fg_color),
                bg: map_color(style.bg_color),
                emphasis: if focused {
                    Emphasis::BoldReversed
                } else {
                    Emphasis::Plain
                },
            }
        },
    }
}

/// The style of a node.
pub open spec fn node_style(n: SpecNode) -> crate::ir::Style {
    match n {
        SpecNode::Container { style, .. } => style,
        SpecNode::Text { style, .. } => style,
        SpecNode::Numeric { style, .. } => style,
        SpecNode::Button { style, .. } => style,
    }
}

/// Colours follow the node's style whatever else holds: the FOREGROUND-COLOR
/// index colours a line's text and a frame's border, the BACKGROUND-COLOR
/// index a line's and a frame's background; containers are drawn as
/// frames and every other node as one line.
pub proof fn lemma_colours_follow_style(
    n: SpecNode,
    vars: Map<Seq<char>, Seq<char>>,
    focused: Option<Seq<char>>,
)
    ensures
        match look_of(n, vars, focused) {
            SpecLook::Line { fg, bg, .. } => !(n is Container) && fg == color_of(
                node_style(n).fg_color,
            ) && bg == color_of(node_style(n).bg_color),
            SpecLook::Frame { border, background, .. } => n is Container && border == color_of(
                node_style(n).fg_color,
            ) && background == color_of(node_style(n).bg_color),
        },
{
}

/// The palette: the indices 0 to 7 name eight different colours, none of
/// them the terminal's own; any other index, or none, is the terminal's own
/// colour.
pub proof fn lemma_palette(i: u8, j: u8)
    ensures
        i < 8 ==> color_of(Some(i)) != Color::Reset,
        i < 8 && j < 8 && i != j ==> color_of(Some(i)) != color_of(Some(j)),
        i >= 8 ==> color_of(Some(i)) == Color::Reset,
        color_of(None) == Color::Reset,
{
}

} // verus!
