//! The styled-tree input: each node carries its resolved display and float
//! kinds, its node payload, and the style values the layout engine reads.
//!
//! Style cascade and CSS parsing happen before this boundary: every property
//! arrives here already resolved to a plain value in the length unit (with
//! `auto` kept symbolic where the layout algorithm must resolve it). The
//! styled tree is owned data, so one layout pass is a pure function of it.

use vstd::prelude::*;
use crate::geometry::{Au, EdgeSizes};
use crate::font::Font;
use crate::layout::ImageMetrics;

verus! {

/// The display kind of a styled node. `Hidden` is CSS `display: none`: such
/// a node produces no box at all.
#[derive(Clone, Copy, Debug, PartialEq, Eq, Structural)]
pub enum Display {
    Block,
    Inline,
    InlineBlock,
    Hidden,
}

/// The float kind of a styled node. `NoFloat` is CSS `float: none`.
#[derive(Clone, Copy, Debug, PartialEq, Eq, Structural)]
pub enum FloatType {
    NoFloat,
    Left,
    Right,
}

/// A style length that may still be `auto`, to be resolved by layout.
#[derive(Clone, Copy, Debug, PartialEq, Eq, Structural)]
pub enum AutoLen {
    Auto,
    Len(Au),
}

impl AutoLen {
    /// The carried length, with `auto` counting as zero.
    pub open spec fn or_zero(self) -> Au {
        match self {
            AutoLen::Auto => 0,
            AutoLen::Len(v) => v,
        }
    }

    pub open spec fn is_auto(self) -> bool {
        self is Auto
    }
}

/// Horizontal alignment of line boxes inside their container.
#[derive(Clone, Copy, Debug, PartialEq, Eq, Structural)]
pub enum TextAlign {
    Left,
    Center,
    Right,
}

/// What kind of content a node stands for, independent of its display kind.
#[derive(Clone, Copy, Debug, PartialEq, Eq, Structural)]
pub enum LayoutType {
    Generic,
    Text,
    Image,
    Anker,
    Button,
}

/// The payload of a styled node: an element, or a run of text carried as a
/// vector of text units (Unicode codepoints).
#[derive(Debug)]
pub enum NodeKind {
    Element,
    Text(Vec<char>),
}

/// The resolved style values the layout engine reads from a node.
#[derive(Clone, Copy, Debug, PartialEq, Eq, Structural)]
pub struct StyleData {
    /// CSS width; `auto` lets block width resolution absorb the underflow.
    pub width: AutoLen,
    /// CSS height; `auto` means the accumulated height of the children.
    pub height: AutoLen,
    pub margin_left: AutoLen,
    pub margin_right: AutoLen,
    pub margin_top: Au,
    pub margin_bottom: Au,
    pub padding: EdgeSizes,
    pub border: EdgeSizes,
    pub text_align: TextAlign,
    pub font: Font,
    pub float: FloatType,
    pub z_index: i32,
    /// The intrinsic size of replaced content (an image), when the node has
    /// any; resolved at the style boundary.
    pub image: Option<ImageMetrics>,
}

impl StyleData {
    /// A fully zeroed style: every length zero, nothing `auto`, left
    /// alignment, the empty font, no float.
    pub fn new_default() -> (s: StyleData)
        ensures
            s == style_default(),
    {
        StyleData {
            width: AutoLen::Auto,
            height: AutoLen::Auto,
            margin_left: AutoLen::Len(0),
            margin_right: AutoLen::Len(0),
            margin_top: 0,
            margin_bottom: 0,
            padding: EdgeSizes { left: 0, right: 0, top: 0, bottom: 0 },
            border: EdgeSizes { left: 0, right: 0, top: 0, bottom: 0 },
            text_align: TextAlign::Left,
            font: Font { size: 0, weight: crate::font::FontWeight::Normal, slant: crate::font::FontSlant::Normal },
            float: FloatType::NoFloat,
            z_index: 0,
            image: None,
        }
    }
}

pub open spec fn style_default() -> StyleData {
    StyleData {
        width: AutoLen::Auto,
        height: AutoLen::Auto,
        margin_left: AutoLen::Len(0),
        margin_right: AutoLen::Len(0),
        margin_top: 0,
        margin_bottom: 0,
        padding: EdgeSizes { left: 0, right: 0, top: 0, bottom: 0 },
        border: EdgeSizes { left: 0, right: 0, top: 0, bottom: 0 },
        text_align: TextAlign::Left,
        font: crate::font::font_empty(),
        float: FloatType::NoFloat,
        z_index: 0,
        image: None,
    }
}

/// One node of the styled tree.
#[derive(Debug)]
pub struct StyledNode {
    pub display: Display,
    pub layout_type: LayoutType,
    pub kind: NodeKind,
    pub style: StyleData,
    pub children: Vec<StyledNode>,
}

/// The mathematical payload of a styled node.
#[verifier::ext_equal]
pub enum NodeKindV {
    Element,
    Text(Seq<char>),
}

/// The mathematical value of a styled node.
#[verifier::ext_equal]
pub struct NodeV {
    pub display: Display,
    pub layout_type: LayoutType,
    pub kind: NodeKindV,
    pub style: StyleData,
    pub children: Seq<NodeV>,
}

pub open spec fn node_view(n: StyledNode) -> NodeV
    decreases n,
{
    NodeV {
        display: n.display,
        layout_type: n.layout_type,
        kind: match n.kind {
            NodeKind::Element => NodeKindV::Element,
            NodeKind::Text(t) => NodeKindV::Text(t@),
        },
        style: n.style,
        children: nodes_view(n.children@),
    }
}

pub open spec fn nodes_view(s: Seq<StyledNode>) -> Seq<NodeV>
    decreases s,
{
    if s.len() == 0 {
        Seq::<NodeV>::empty()
    } else {
        nodes_view(s.drop_last()).push(node_view(s.last()))
    }
}

impl View for StyledNode {
    type V = NodeV;

    open spec fn view(&self) -> NodeV {
        node_view(*self)
    }
}

pub broadcast proof fn lemma_nodes_view(s: Seq<StyledNode>)
    ensures
        (#[trigger] nodes_view(s)).len() == s.len(),
        forall|i: int| 0 <= i < s.len() ==> nodes_view(s)[i] == node_view(s[i]),
    decreases s,
{
    if s.len() > 0 {
        lemma_nodes_view(s.drop_last());
        assert forall|i: int| 0 <= i < s.len() implies nodes_view(s)[i] == node_view(s[i]) by {
            if i < s.len() - 1 {
                assert(s.drop_last()[i] == s[i]);
            }
        }
    }
}

/// A well-formed styled tree: text nodes are inline leaves that do not
/// float, font sizes are non-negative, and an inline element contains only
/// inline-level, non-floated children. The layout engine is specified on
/// well-formed trees only.
pub open spec fn wf_node(n: NodeV) -> bool
    decreases n,
{
    &&& n.style.font.size >= 0
    &&& match n.kind {
        NodeKindV::Text(_) => {
            &&& n.children.len() == 0
            &&& n.display == Display::Inline
            &&& n.style.float == FloatType::NoFloat
        },
        NodeKindV::Element => {
            &&& wf_nodes(n.children)
            &&& (n.display == Display::Inline ==> forall|i: int|
                0 <= i < n.children.len() ==> (#[trigger] n.children[i]).style.float
                    == FloatType::NoFloat && (n.children[i].display == Display::Inline
                    || n.children[i].display == Display::InlineBlock || n.children[i].display
                    == Display::Hidden))
        },
    }
}

pub open spec fn wf_nodes(s: Seq<NodeV>) -> bool
    decreases s,
{
    forall|i: int| 0 <= i < s.len() ==> wf_node(#[trigger] s[i])
}

impl StyledNode {
    /// The display kind of this node.
    pub fn display(&self) -> (d: Display)
        ensures
            d == self@.display,
    {
        self.display
    }

    /// The float kind of this node.
    pub fn float(&self) -> (f: FloatType)
        ensures
            f == self@.style.float,
    {
        self.style.float
    }

    /// Whether this styled tree is well formed: the check the layout entry
    /// point's precondition asks for.
    pub fn is_well_formed(&self) -> (b: bool)
        ensures
            b == wf_node(self@),
        decreases *self,
    {
        if self.style.font.size < 0 {
            return false;
        }
        match &self.kind {
            NodeKind::Text(_) => {
                self.children.len() == 0 && self.display == Display::Inline && self.style.float
                    == FloatType::NoFloat
            },
            NodeKind::Element => {
                let inline = self.display == Display::Inline;
                let n = self.children.len();
                let mut i: usize = 0;
                proof {
                    lemma_nodes_view(self.children@);
                }
                while i < n
                    invariant
                        0 <= i <= n,
                        n == self.children@.len(),
                        inline == (self.display == Display::Inline),
                        nodes_view(self.children@).len() == n,
                        forall|j: int| 0 <= j < n ==> nodes_view(self.children@)[j] == node_view(
                            self.children@[j],
                        ),
                        forall|j: int| 0 <= j < i ==> wf_node(
                            #[trigger] nodes_view(self.children@)[j],
                        ),
                        inline ==> forall|j: int|
                            0 <= j < i ==> (#[trigger] nodes_view(self.children@)[j]).style.float
                                == FloatType::NoFloat && (nodes_view(self.children@)[j].display
                                == Display::Inline || nodes_view(self.children@)[j].display
                                == Display::InlineBlock || nodes_view(self.children@)[j].display
                                == Display::Hidden),
                    decreases n - i,
                {
                    let c = &self.children[i];
                    if !c.is_well_formed() {
                        proof {
                            assert(!wf_node(nodes_view(self.children@)[i as int]));
                        }
                        return false;
                    }
                    if inline {
                        if !(c.style.float == FloatType::NoFloat && (c.display == Display::Inline
                            || c.display == Display::InlineBlock || c.display
                            == Display::Hidden)) {
                            proof {
                                assert(nodes_view(self.children@)[i as int] == node_view(
                                    self.children@[i as int],
                                ));
                            }
                            return false;
                        }
                    }
                    i = i + 1;
                }
                true
            },
        }
    }
}

} // verus!
