//! Glyph sets and the label-line layout: which glyph stands at each ancestor
//! level of a row, where the expander and the optional prefix go, and which
//! pieces carry the guide-line style. Turning the pieces into styled screen
//! cells is the renderer's business, not the engine's.

use vstd::prelude::*;

use crate::model::TreeModel;

verus! {

/// Glyph set used to render the tree structure and expanders.
#[derive(Clone, Copy)]
pub struct TreeGlyphs<'a> {
    /// Indentation for empty levels.
    pub indent: &'a str,
    /// Branch glyph for the last child.
    pub branch_last: &'a str,
    /// Branch glyph for intermediate children.
    pub branch: &'a str,
    /// Vertical continuation glyph.
    pub vert: &'a str,
    /// Empty spacer glyph (used when no line is drawn).
    pub empty: &'a str,
    /// Leaf glyph for nodes without children.
    pub leaf: &'a str,
    /// Expander glyph for expanded nodes.
    pub expanded: &'a str,
    /// Expander glyph for collapsed nodes.
    pub collapsed: &'a str,
}

/// The mathematical content of a glyph set.
pub ghost struct GlyphsSpec {
    /// Indentation for empty levels.
    pub indent: Seq<char>,
    /// Branch glyph for the last child.
    pub branch_last: Seq<char>,
    /// Branch glyph for intermediate children.
    pub branch: Seq<char>,
    /// Vertical continuation glyph.
    pub vert: Seq<char>,
    /// Empty spacer glyph.
    pub empty: Seq<char>,
    /// Leaf glyph.
    pub leaf: Seq<char>,
    /// Expander glyph for expanded nodes.
    pub expanded: Seq<char>,
    /// Expander glyph for collapsed nodes.
    pub collapsed: Seq<char>,
}

impl<'a> View for TreeGlyphs<'a> {
    type V = GlyphsSpec;

    open spec fn view(&self) -> GlyphsSpec {
        GlyphsSpec {
            indent: self.indent@,
            branch_last: self.branch_last@,
            branch: self.branch@,
            vert: self.vert@,
            empty: self.empty@,
            leaf: self.leaf@,
            expanded: self.expanded@,
            collapsed: self.collapsed@,
        }
    }
}

impl TreeGlyphs<'static> {
    /// Returns a Unicode glyph set.
    pub fn unicode() -> (r: Self)
        ensures
            r.indent@ == "   "@,
            r.branch_last@ == "└──"@,
            r.branch@ == "├──"@,
            r.vert@ == "│  "@,
            r.empty@ == "   "@,
            r.leaf@ == "•"@,
            r.expanded@ == "▼"@,
            r.collapsed@ == "▶"@,
    {
        Self {
            indent: "   ",
            branch_last: "└──",
            branch: "├──",
            vert: "│  ",
            empty: "   ",
            leaf: "•",
            expanded: "▼",
            collapsed: "▶",
        }
    }

    /// Returns an ASCII-only glyph set.
    pub fn ascii() -> (r: Self)
        ensures
            r.indent@ == "   "@,
            r.branch_last@ == "`--"@,
            r.branch@ == "|--"@,
            r.vert@ == "|  "@,
            r.empty@ == "   "@,
            r.leaf@ == "*"@,
            r.expanded@ == "v"@,
            r.collapsed@ == ">"@,
    {
        Self {
            indent: "   ",
            branch_last: "`--",
            branch: "|--",
            vert: "|  ",
            empty: "   ",
            leaf: "*",
            expanded: "v",
            collapsed: ">",
        }
    }
}

/// Rendering context for a single tree row, as the engine hands it to the
/// renderer.
#[derive(Clone, Copy)]
pub struct TreeRowContext<'a> {
    /// Depth level of the node in the tree (root = 0).
    pub level: u16,
    /// Stack indicating whether each level on the path is the last child.
    pub is_tail_stack: &'a [bool],
    /// Whether the node is currently expanded.
    pub is_expanded: bool,
    /// Whether the node has children.
    pub has_children: bool,
    /// Whether the node is marked (directly or via its subtree).
    pub is_marked: bool,
    /// Whether guide lines should be rendered.
    pub draw_lines: bool,
}

/// Label parts: name with an optional prefix (e.g., marker or icon).
#[derive(Clone, Copy)]
pub struct TreeLabelPrefix<'a> {
    /// Node display name.
    pub name: &'a str,
    /// Optional prefix rendered before the name.
    pub prefix: Option<&'a str>,
}

/// Provides label parts for a node.
pub trait TreeLabelProvider<M: TreeModel> {
    /// Returns name and optional prefix for the node.
    fn label_parts<'a>(&'a self, model: &'a M, id: usize) -> TreeLabelPrefix<'a>;
}

/// One piece of a rendered label line: its text, and whether it is a guide
/// segment (drawn with the guide-line style).
pub struct LabelSegment<'a> {
    /// The text of the piece.
    pub text: &'a str,
    /// Whether the piece is part of the guide lines.
    pub guide: bool,
}

/// The mathematical content of one label piece.
pub ghost struct SegSpec {
    /// The text of the piece.
    pub text: Seq<char>,
    /// Whether the piece is part of the guide lines.
    pub guide: bool,
}

impl<'a> View for LabelSegment<'a> {
    type V = SegSpec;

    open spec fn view(&self) -> SegSpec {
        SegSpec { text: self.text@, guide: self.guide }
    }
}

/// The guide glyph for ancestor level `l` of a row at depth `level`: a
/// branch at the row's own level, an indent under a last child, a vertical
/// line otherwise.
pub open spec fn spec_guide_part(g: GlyphsSpec, tail: Seq<bool>, level: nat, l: int) -> Seq<char> {
    if l == level - 1 {
        if tail[l] {
            g.branch_last
        } else {
            g.branch
        }
    } else if tail[l] {
        g.indent
    } else {
        g.vert
    }
}

/// The expander glyph of a row.
pub open spec fn spec_expander(
    g: GlyphsSpec,
    level: nat,
    has_children: bool,
    is_expanded: bool,
) -> Seq<char> {
    if has_children {
        if is_expanded {
            g.expanded
        } else {
            g.collapsed
        }
    } else if level == 0 {
        Seq::empty()
    } else {
        g.leaf
    }
}

/// The pieces of one label line, in order. At the root, or with guide lines
/// off, the row is indented with spacers; otherwise each ancestor level
/// contributes one guide glyph. Then the expander, the optional prefix, and
/// the name.
pub open spec fn spec_label_segments(
    level: nat,
    tail: Seq<bool>,
    is_expanded: bool,
    has_children: bool,
    draw_lines: bool,
    name: Seq<char>,
    prefix: Option<Seq<char>>,
    g: GlyphsSpec,
) -> Seq<SegSpec> {
    let op = match prefix {
        Some(p) => if p.len() > 0 {
            Some(p)
        } else {
            None
        },
        None => None,
    };
    let expander = spec_expander(g, level, has_children, is_expanded);
    if level == 0 || !draw_lines {
        Seq::new(level, |l: int| SegSpec { text: g.empty, guide: false }) + (if expander.len()
            > 0 {
            seq![SegSpec { text: expander, guide: false }]
        } else {
            Seq::empty()
        }) + (match op {
            Some(o) => seq![SegSpec { text: o, guide: false }],
            None => Seq::empty(),
        }) + seq![SegSpec { text: " "@, guide: false }, SegSpec { text: name, guide: false }]
    } else {
        Seq::new(
            tail.len(),
            |l: int| SegSpec { text: spec_guide_part(g, tail, level, l), guide: true },
        ) + (if expander.len() > 0 {
            seq![
                SegSpec { text: expander, guide: false },
                SegSpec { text: " "@, guide: false },
            ]
        } else {
            Seq::empty()
        }) + (match op {
            Some(o) => seq![
                SegSpec { text: o, guide: false },
                SegSpec { text: " "@, guide: false },
            ],
            None => Seq::empty(),
        }) + seq![SegSpec { text: name, guide: false }]
    }
}

/// Mapping rows of label pieces to their views commutes with appending one.
proof fn lemma_seg_map_push<'a>(s: Seq<LabelSegment<'a>>, x: LabelSegment<'a>)
    ensures
        s.push(x).map_values(|t: LabelSegment<'a>| t@) =~= s.map_values(
            |t: LabelSegment<'a>| t@,
        ).push(x@),
{
}

/// Builds the pieces of the label line for one row, including guides and
/// expanders. The renderer styles and concatenates them.
pub fn tree_label_segments<'a>(
    ctx: &TreeRowContext<'_>,
    parts: TreeLabelPrefix<'a>,
    glyphs: &TreeGlyphs<'a>,
) -> (r: Vec<LabelSegment<'a>>)
    ensures
        r@.map_values(|s: LabelSegment<'a>| s@) == spec_label_segments(
            ctx.level as nat,
            ctx.is_tail_stack@,
            ctx.is_expanded,
            ctx.has_children,
            ctx.draw_lines,
            parts.name@,
            match parts.prefix {
                Some(p) => Some(p@),
                None => None,
            },
            glyphs@,
        ),
{
    let ghost target = spec_label_segments(
        ctx.level as nat,
        ctx.is_tail_stack@,
        ctx.is_expanded,
        ctx.has_children,
        ctx.draw_lines,
        parts.name@,
        match parts.prefix {
            Some(p) => Some(p@),
            None => None,
        },
        glyphs@,
    );
    let op: Option<&'a str> = match parts.prefix {
        Some(p) => if !p.is_empty() {
            Some(p)
        } else {
            None
        },
        None => None,
    };
    let mut segs: Vec<LabelSegment<'a>> = Vec::new();

    if ctx.level == 0 || !ctx.draw_lines {
        let expander: &'a str = if ctx.has_children {
            if ctx.is_expanded {
                glyphs.expanded
            } else {
                glyphs.collapsed
            }
        } else if ctx.level == 0 {
            ""
        } else {
            glyphs.leaf
        };
        proof {
            reveal_strlit("");
            assert(""@ =~= Seq::<char>::empty());
            assert(expander@ == spec_expander(
                glyphs@,
                ctx.level as nat,
                ctx.has_children,
                ctx.is_expanded,
            ));
        }
        let lvl = ctx.level as usize;
        let mut l: usize = 0;
        while l < lvl
            invariant
                0 <= l <= lvl,
                segs@.len() == l,
                forall|k: int|
                    0 <= k < l ==> segs@[k]@ == (SegSpec { text: glyphs@.empty, guide: false }),
            decreases lvl - l,
        {
            segs.push(LabelSegment { text: glyphs.empty, guide: false });
            l = l + 1;
        }
        let ghost m1 = segs@.map_values(|t: LabelSegment<'a>| t@);
        proof {
            assert(m1 =~= Seq::new(
                ctx.level as nat,
                |k: int| SegSpec { text: glyphs@.empty, guide: false },
            ));
        }
        if !expander.is_empty() {
            proof {
                lemma_seg_map_push(segs@, LabelSegment { text: expander, guide: false });
            }
            segs.push(LabelSegment { text: expander, guide: false });
        }
        let ghost m2 = segs@.map_values(|t: LabelSegment<'a>| t@);
        if let Some(o) = op {
            proof {
                lemma_seg_map_push(segs@, LabelSegment { text: o, guide: false });
            }
            segs.push(LabelSegment { text: o, guide: false });
        }
        proof {
            lemma_seg_map_push(segs@, LabelSegment { text: " ", guide: false });
        }
        segs.push(LabelSegment { text: " ", guide: false });
        proof {
            lemma_seg_map_push(segs@, LabelSegment { text: parts.name, guide: false });
        }
        segs.push(LabelSegment { text: parts.name, guide: false });
        proof {
            assert(segs@.map_values(|t: LabelSegment<'a>| t@) =~= target);
        }
        return segs;
    }

    let tn = ctx.is_tail_stack.len();
    let mut l: usize = 0;
    while l < tn
        invariant
            0 <= l <= tn,
            tn == ctx.is_tail_stack@.len(),
            segs@.len() == l,
            forall|k: int|
                0 <= k < l ==> segs@[k]@ == (SegSpec {
                    text: spec_guide_part(glyphs@, ctx.is_tail_stack@, ctx.level as nat, k),
                    guide: true,
                }),
        decreases tn - l,
    {
        let is_last = ctx.is_tail_stack[l];
        let part: &'a str = if l + 1 == ctx.level as usize {
            if is_last {
                glyphs.branch_last
            } else {
                glyphs.branch
            }
        } else if is_last {
            glyphs.indent
        } else {
            glyphs.vert
        };
        proof {
            assert(part@ == spec_guide_part(
                glyphs@,
                ctx.is_tail_stack@,
                ctx.level as nat,
                l as int,
            ));
        }
        segs.push(LabelSegment { text: part, guide: true });
        l = l + 1;
    }
    let ghost m1 = segs@.map_values(|t: LabelSegment<'a>| t@);
    proof {
        assert(m1 =~= Seq::new(
            ctx.is_tail_stack@.len(),
            |k: int|
                SegSpec {
                    text: spec_guide_part(glyphs@, ctx.is_tail_stack@, ctx.level as nat, k),
                    guide: true,
                },
        ));
    }

    let expander: &'a str = if ctx.has_children {
        if ctx.is_expanded {
            glyphs.expanded
        } else {
            glyphs.collapsed
        }
    } else {
        glyphs.leaf
    };
    proof {
        assert(expander@ == spec_expander(
            glyphs@,
            ctx.level as nat,
            ctx.has_children,
            ctx.is_expanded,
        ));
    }
    if !expander.is_empty() {
        proof {
            lemma_seg_map_push(segs@, LabelSegment { text: expander, guide: false });
        }
        segs.push(LabelSegment { text: expander, guide: false });
        proof {
            lemma_seg_map_push(segs@, LabelSegment { text: " ", guide: false });
        }
        segs.push(LabelSegment { text: " ", guide: false });
    }
    if let Some(o) = op {
        proof {
            lemma_seg_map_push(segs@, LabelSegment { text: o, guide: false });
        }
        segs.push(LabelSegment { text: o, guide: false });
        proof {
            lemma_seg_map_push(segs@, LabelSegment { text: " ", guide: false });
        }
        segs.push(LabelSegment { text: " ", guide: false });
    }
    proof {
        lemma_seg_map_push(segs@, LabelSegment { text: parts.name, guide: false });
    }
    segs.push(LabelSegment { text: parts.name, guide: false });
    proof {
        assert(segs@.map_values(|t: LabelSegment<'a>| t@) =~= target);
    }
    segs
}

} // verus!
