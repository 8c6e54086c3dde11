use vstd::prelude::*;
use crate::fixed::{
    channel_byte, channel_byte_of, clamp, clamp_i32, fixed_text, fixed_text_of, round_to_i32,
    round_units, trunc_to_i32, trunc_to_u32, trunc_units, Fixed,
};
use crate::schema::{
    element_view, elements_view, opt_font, opt_icon, opt_text, Bounds, ElementView, Font,
    FontView, Padding, SchemaView, SemanticElement, SemanticSchema,
};
use crate::text::{
    ascii_lower, char_is_alphanumeric, chars_of, lower_ascii, owned, str_to_lowercase,
    string_of, text_eq, unicode_alphanumeric, unicode_lowercase,
};

verus! {

/// A `GET /v1/files/<key>/nodes` response: each requested node id with the
/// node tree under it, in the order the response map was walked.
pub struct FileNodesResponse {
    pub nodes: Vec<(String, NodeWrapper)>,
}

/// The document tree of one requested node.
pub struct NodeWrapper {
    pub document: FigmaNode,
}

/// Model of a nodes response: each node id with the model of its tree.
pub open spec fn response_view(r: FileNodesResponse) -> Seq<(Seq<char>, FigmaNodeView)> {
    r.nodes@.map_values(|p: (String, NodeWrapper)| (p.0@, p.1.document@))
}

/// One node of a design tree.
pub struct FigmaNode {
    pub id: String,
    pub name: String,
    pub node_type: String,
    pub visible: Option<bool>,
    pub characters: Option<String>,
    pub style: Option<TypeStyle>,
    pub fills: Option<Vec<Paint>>,
    pub strokes: Option<Vec<Paint>>,
    pub corner_radius: Option<Fixed>,
    pub absolute_bounding_box: Option<BoundingBox>,
    pub padding_left: Option<Fixed>,
    pub padding_right: Option<Fixed>,
    pub padding_top: Option<Fixed>,
    pub padding_bottom: Option<Fixed>,
    pub item_spacing: Option<Fixed>,
    pub fill_geometry: Option<Vec<VectorPath>>,
    pub stroke_geometry: Option<Vec<VectorPath>>,
    pub children: Option<Vec<FigmaNode>>,
    pub component_id: Option<String>,
}

/// Text style of a node.
pub struct TypeStyle {
    pub font_family: Option<String>,
    pub font_weight: Option<Fixed>,
    pub font_size: Option<Fixed>,
    pub letter_spacing: Option<Fixed>,
    pub line_height_px: Option<Fixed>,
}

/// One fill or stroke paint of a node.
pub struct Paint {
    pub paint_type: Option<String>,
    pub color: Option<FigmaColor>,
    pub visible: Option<bool>,
    pub opacity: Option<Fixed>,
    pub image_ref: Option<String>,
}

/// One outline of a vector node, as SVG path data.
pub struct VectorPath {
    pub path: String,
    pub winding_rule: Option<String>,
}

/// A colour with channels in `0..=1`.
#[derive(Clone, Copy, Debug, PartialEq, Eq, Structural)]
pub struct FigmaColor {
    pub r: Fixed,
    pub g: Fixed,
    pub b: Fixed,
    pub a: Fixed,
}

/// Absolute position and size of a node.
#[derive(Clone, Copy, Debug, PartialEq, Eq, Structural)]
pub struct BoundingBox {
    pub x: Fixed,
    pub y: Fixed,
    pub width: Fixed,
    pub height: Fixed,
}

/// Model of a `TypeStyle`.
pub struct TypeStyleView {
    pub font_family: Option<Seq<char>>,
    pub font_weight: Option<Fixed>,
    pub font_size: Option<Fixed>,
    pub letter_spacing: Option<Fixed>,
    pub line_height_px: Option<Fixed>,
}

/// Model of a `Paint`.
pub struct PaintView {
    pub paint_type: Option<Seq<char>>,
    pub color: Option<FigmaColor>,
    pub visible: Option<bool>,
    pub opacity: Option<Fixed>,
    pub image_ref: Option<Seq<char>>,
}

/// Model of a `VectorPath`.
pub struct VectorPathView {
    pub path: Seq<char>,
    pub winding_rule: Option<Seq<char>>,
}

/// Model of a `FigmaNode`.
pub struct FigmaNodeView {
    pub id: Seq<char>,
    pub name: Seq<char>,
    pub node_type: Seq<char>,
    pub visible: Option<bool>,
    pub characters: Option<Seq<char>>,
    pub style: Option<TypeStyleView>,
    pub fills: Option<Seq<PaintView>>,
    pub strokes: Option<Seq<PaintView>>,
    pub corner_radius: Option<Fixed>,
    pub absolute_bounding_box: Option<BoundingBox>,
    pub padding_left: Option<Fixed>,
    pub padding_right: Option<Fixed>,
    pub padding_top: Option<Fixed>,
    pub padding_bottom: Option<Fixed>,
    pub item_spacing: Option<Fixed>,
    pub fill_geometry: Option<Seq<VectorPathView>>,
    pub stroke_geometry: Option<Seq<VectorPathView>>,
    pub children: Option<Seq<FigmaNodeView>>,
    pub component_id: Option<Seq<char>>,
}

impl View for TypeStyle {
    type V = TypeStyleView;

    open spec fn view(&self) -> TypeStyleView {
        TypeStyleView {
            font_family: opt_text(self.font_family),
            font_weight: self.font_weight,
            font_size: self.font_size,
            letter_spacing: self.letter_spacing,
            line_height_px: self.line_height_px,
        }
    }
}

impl View for Paint {
    type V = PaintView;

    open spec fn view(&self) -> PaintView {
        PaintView {
            paint_type: opt_text(self.paint_type),
            color: self.color,
            visible: self.visible,
            opacity: self.opacity,
            image_ref: opt_text(self.image_ref),
        }
    }
}

impl View for VectorPath {
    type V = VectorPathView;

    open spec fn view(&self) -> VectorPathView {
        VectorPathView { path: self.path@, winding_rule: opt_text(self.winding_rule) }
    }
}

/// Model of an optional `TypeStyle`.
pub open spec fn opt_style(s: Option<TypeStyle>) -> Option<TypeStyleView> {
    match s {
        Some(s) => Some(s@),
        None => None,
    }
}

/// Models of an optional list of paints.
pub open spec fn opt_paints(p: Option<Vec<Paint>>) -> Option<Seq<PaintView>> {
    match p {
        Some(v) => Some(v@.map_values(|x: Paint| x@)),
        None => None,
    }
}

/// Models of an optional list of vector paths.
pub open spec fn opt_paths(p: Option<Vec<VectorPath>>) -> Option<Seq<VectorPathView>> {
    match p {
        Some(v) => Some(v@.map_values(|x: VectorPath| x@)),
        None => None,
    }
}

/// Models of a list of nodes.
pub open spec fn nodes_view(s: Seq<FigmaNode>) -> Seq<FigmaNodeView>
    decreases s,
{
    Seq::new(
        s.len(),
        |i: int|
            if 0 <= i < s.len() {
                node_view(s[i])
            } else {
                empty_node()
            },
    )
}

/// Placeholder model used only outside the bounds of a list.
pub open spec fn empty_node() -> FigmaNodeView {
    FigmaNodeView {
        id: seq![],
        name: seq![],
        node_type: seq![],
        visible: None,
        characters: None,
        style: None,
        fills: None,
        strokes: None,
        corner_radius: None,
        absolute_bounding_box: None,
        padding_left: None,
        padding_right: None,
        padding_top: None,
        padding_bottom: None,
        item_spacing: None,
        fill_geometry: None,
        stroke_geometry: None,
        children: None,
        component_id: None,
    }
}

/// Model of one node and its subtree.
pub open spec fn node_view(n: FigmaNode) -> FigmaNodeView
    decreases n,
{
    FigmaNodeView {
        id: n.id@,
        name: n.name@,
        node_type: n.node_type@,
        visible: n.visible,
        characters: opt_text(n.characters),
        style: opt_style(n.style),
        fills: opt_paints(n.fills),
        strokes: opt_paints(n.strokes),
        corner_radius: n.corner_radius,
        absolute_bounding_box: n.absolute_bounding_box,
        padding_left: n.padding_left,
        padding_right: n.padding_right,
        padding_top: n.padding_top,
        padding_bottom: n.padding_bottom,
        item_spacing: n.item_spacing,
        fill_geometry: opt_paths(n.fill_geometry),
        stroke_geometry: opt_paths(n.stroke_geometry),
        children: match n.children {
            Some(c) => Some(nodes_view(c@)),
            None => None,
        },
        component_id: opt_text(n.component_id),
    }
}

impl View for FigmaNode {
    type V = FigmaNodeView;

    open spec fn view(&self) -> FigmaNodeView {
        node_view(*self)
    }
}

// ---------------------------------------------------------------------------
// Classification

/// The semantic type of a node of the given Figma type: `TEXT` is `text`;
/// `RECTANGLE`, `ELLIPSE`, `LINE`, `VECTOR` are `image`; `INSTANCE`,
/// `COMPONENT`, `COMPONENT_SET` are `button` when the node holds text (itself
/// or below it, see `has_text`) and `container` otherwise; `FRAME`, `GROUP`, `SECTION` are `container`; any
/// other type is `view`.
pub open spec fn classify_type(t: Seq<char>, has_text: bool) -> Seq<char> {
    if t == "TEXT"@ {
        "text"@
    } else if t == "RECTANGLE"@ || t == "ELLIPSE"@ || t == "LINE"@ || t == "VECTOR"@ {
        "image"@
    } else if t == "INSTANCE"@ || t == "COMPONENT"@ || t == "COMPONENT_SET"@ {
        if has_text {
            "button"@
        } else {
            "container"@
        }
    } else if t == "FRAME"@ || t == "GROUP"@ || t == "SECTION"@ {
        "container"@
    } else {
        "view"@
    }
}

/// The semantic element type of a node (see `classify_type`).
pub fn classify_figma_type(node_type: &str, has_text: bool) -> (r: String)
    ensures
        r@ == classify_type(node_type@, has_text),
{
    if text_eq(node_type, "TEXT") {
        owned("text")
    } else if text_eq(node_type, "RECTANGLE") || text_eq(node_type, "ELLIPSE") || text_eq(
        node_type,
        "LINE",
    ) || text_eq(node_type, "VECTOR") {
        owned("image")
    } else if text_eq(node_type, "INSTANCE") || text_eq(node_type, "COMPONENT") || text_eq(
        node_type,
        "COMPONENT_SET",
    ) {
        if has_text {
            owned("button")
        } else {
            owned("container")
        }
    } else if text_eq(node_type, "FRAME") || text_eq(node_type, "GROUP") || text_eq(
        node_type,
        "SECTION",
    ) {
        owned("container")
    } else {
        owned("view")
    }
}

// ---------------------------------------------------------------------------
// Colours

/// The upper-case hexadecimal digit for `d` in `0..16`.
pub open spec fn hex_digit(d: int) -> char {
    if d < 10 {
        (48 + d) as char
    } else {
        (55 + d) as char
    }
}

/// A byte as two upper-case hexadecimal digits.
pub open spec fn hex_byte(b: int) -> Seq<char> {
    seq![hex_digit(b / 16), hex_digit(b % 16)]
}

/// `#RRGGBB` text of a colour, each channel scaled to a byte.
pub open spec fn hex_color(c: FigmaColor) -> Seq<char> {
    seq!['#'] + hex_byte(channel_byte_of(c.r as int)) + hex_byte(channel_byte_of(c.g as int))
        + hex_byte(channel_byte_of(c.b as int))
}

/// The colour of the first paint in the list that is not hidden
/// (`visible` is not `Some(false)`) and has a colour.
pub open spec fn first_paint_color(p: Seq<PaintView>) -> Option<Seq<char>>
    decreases p.len(),
{
    if p.len() == 0 {
        None
    } else if p[0].visible == Some(false) {
        first_paint_color(p.drop_first())
    } else {
        match p[0].color {
            Some(c) => Some(hex_color(c)),
            None => first_paint_color(p.drop_first()),
        }
    }
}

/// The fill colour of an optional paint list (see `first_paint_color`).
pub open spec fn fill_color_of(p: Option<Seq<PaintView>>) -> Option<Seq<char>> {
    match p {
        Some(p) => first_paint_color(p),
        None => None,
    }
}

fn hex_digit_char(d: u8) -> (c: char)
    requires
        d < 16,
    ensures
        c == hex_digit(d as int),
{
    if d < 10 {
        let b: u8 = 48 + d;
        b as char
    } else {
        let b: u8 = 55 + d;
        b as char
    }
}

/// `#RRGGBB` text of a colour (see `hex_color`).
pub fn color_hex(c: &FigmaColor) -> (r: String)
    ensures
        r@ == hex_color(*c),
{
    let r = channel_byte(c.r);
    let g = channel_byte(c.g);
    let b = channel_byte(c.b);
    let mut cs: Vec<char> = Vec::new();
    cs.push('#');
    cs.push(hex_digit_char(r / 16));
    cs.push(hex_digit_char(r % 16));
    cs.push(hex_digit_char(g / 16));
    cs.push(hex_digit_char(g % 16));
    cs.push(hex_digit_char(b / 16));
    cs.push(hex_digit_char(b % 16));
    assert(cs@ =~= hex_color(*c));
    string_of(&cs)
}

/// The colour of the first visible paint that has one, as `#RRGGBB`.
pub fn extract_fill_color(fills: &Option<Vec<Paint>>) -> (r: Option<String>)
    ensures
        opt_text(r) == fill_color_of(opt_paints(*fills)),
{
    match fills {
        None => None,
        Some(v) => {
            let ghost all = v@.map_values(|x: Paint| x@);
            assert(opt_paints(*fills) == Some(all));
            let mut i: usize = 0;
            assert(all.subrange(0, all.len() as int) =~= all);
            while i < v.len()
                invariant
                    0 <= i <= v.len(),
                    all == v@.map_values(|x: Paint| x@),
                    opt_paints(*fills) == Some(all),
                    first_paint_color(all) == first_paint_color(all.subrange(i as int, all.len() as int)),
                decreases v.len() - i,
            {
                let ghost rest = all.subrange(i as int, all.len() as int);
                assert(rest.drop_first() =~= all.subrange(i + 1, all.len() as int));
                assert(rest[0] == v@[i as int]@);
                let f = &v[i];
                if f.visible == Some(false) {
                    i = i + 1;
                    continue;
                }
                match &f.color {
                    Some(c) => {
                        assert(first_paint_color(rest) == Some(hex_color(*c)));
                        return Some(color_hex(c));
                    },
                    None => {},
                }
                i = i + 1;
            }
            assert(all.subrange(i as int, all.len() as int).len() == 0);
            None
        },
    }
}

// ---------------------------------------------------------------------------
// Font weights

/// The weight text for a numeric font weight: the weight (truncated to a
/// whole number limited to `u32`) taken to its hundred, as the schema writes
/// it: below 150 `100`, below 250 `200`, below 350 `300`, below 450 `400`,
/// below 550 `500`, below 650 `600`, below 750 `700`, below 850 `800`,
/// else `900`.
pub open spec fn weight_name_of(w: int) -> Seq<char> {
    let u = clamp(trunc_units(w), 0, u32::MAX as int);
    if u <= 149 {
        "100"@
    } else if u <= 249 {
        "200"@
    } else if u <= 349 {
        "300"@
    } else if u <= 449 {
        "400"@
    } else if u <= 549 {
        "500"@
    } else if u <= 649 {
        "600"@
    } else if u <= 749 {
        "700"@
    } else if u <= 849 {
        "800"@
    } else {
        "900"@
    }
}

/// The weight text of a numeric font weight (see `weight_name_of`).
pub fn weight_name(w: Fixed) -> (r: String)
    ensures
        r@ == weight_name_of(w as int),
{
    let u = trunc_to_u32(w);
    if u <= 149 {
        owned("100")
    } else if u <= 249 {
        owned("200")
    } else if u <= 349 {
        owned("300")
    } else if u <= 449 {
        owned("400")
    } else if u <= 549 {
        owned("500")
    } else if u <= 649 {
        owned("600")
    } else if u <= 749 {
        owned("700")
    } else if u <= 849 {
        owned("800")
    } else {
        owned("900")
    }
}

// ---------------------------------------------------------------------------
// Slugs

/// One character of a slug before separators are collapsed: alphanumeric
/// characters lower-cased (ASCII letters only), every other character `_`.
pub open spec fn slug_char(c: char) -> char {
    if unicode_alphanumeric(c) {
        ascii_lower(c)
    } else {
        '_'
    }
}

/// The text split at every occurrence of `sep` (there is always at least one
/// part; parts may be empty).
pub open spec fn split_at_char(t: Seq<char>, sep: char) -> Seq<Seq<char>>
    decreases t.len(),
{
    if t.len() == 0 {
        seq![seq![]]
    } else {
        let p = split_at_char(t.drop_last(), sep);
        if t.last() == sep {
            p.push(seq![])
        } else {
            p.update(p.len() - 1, p.last().push(t.last()))
        }
    }
}

/// The parts that are not empty, in order.
pub open spec fn non_empty_parts(p: Seq<Seq<char>>) -> Seq<Seq<char>>
    decreases p.len(),
{
    if p.len() == 0 {
        seq![]
    } else if p.last().len() > 0 {
        non_empty_parts(p.drop_last()).push(p.last())
    } else {
        non_empty_parts(p.drop_last())
    }
}

/// The parts joined with `sep` between each two.
pub open spec fn join_with(p: Seq<Seq<char>>, sep: char) -> Seq<char>
    decreases p.len(),
{
    if p.len() == 0 {
        seq![]
    } else if p.len() == 1 {
        p[0]
    } else {
        join_with(p.drop_last(), sep).push(sep) + p.last()
    }
}

/// The slug of a text: every character mapped by `slug_char`, the result
/// split at `_`, empty parts dropped, the rest joined with `_`.
pub open spec fn slug_of(s: Seq<char>) -> Seq<char> {
    join_with(non_empty_parts(split_at_char(s.map_values(|c: char| slug_char(c)), '_')), '_')
}

proof fn lemma_split_nonempty(t: Seq<char>, sep: char)
    ensures
        split_at_char(t, sep).len() >= 1,
    decreases t.len(),
{
    if t.len() > 0 {
        lemma_split_nonempty(t.drop_last(), sep);
    }
}

proof fn lemma_parts_non_empty(p: Seq<Seq<char>>)
    ensures
        forall|i: int| 0 <= i < non_empty_parts(p).len() ==> #[trigger] non_empty_parts(p)[i].len() > 0,
    decreases p.len(),
{
    if p.len() > 0 {
        lemma_parts_non_empty(p.drop_last());
        let q = non_empty_parts(p.drop_last());
        if p.last().len() > 0 {
            assert forall|i: int| 0 <= i < non_empty_parts(p).len() implies #[trigger] non_empty_parts(p)[i].len() > 0 by {
                if i < q.len() {
                    assert(non_empty_parts(p)[i] == q[i]);
                }
            }
        }
    }
}

proof fn lemma_join_push(f: Seq<Seq<char>>, x: Seq<char>, sep: char)
    ensures
        join_with(f.push(x), sep) == if f.len() == 0 {
            x
        } else {
            join_with(f, sep).push(sep) + x
        },
{
    assert(f.push(x).drop_last() =~= f);
}

proof fn lemma_join_extend(f: Seq<Seq<char>>, m: char, sep: char)
    requires
        f.len() > 0,
    ensures
        join_with(f.update(f.len() - 1, f.last().push(m)), sep) == join_with(f, sep).push(m),
{
    let g = f.update(f.len() - 1, f.last().push(m));
    if f.len() == 1 {
        assert(g[0] == f[0].push(m));
    } else {
        assert(g.drop_last() =~= f.drop_last());
        assert(join_with(g, sep) == join_with(f.drop_last(), sep).push(sep) + f.last().push(m));
        assert(join_with(g, sep) =~= (join_with(f.drop_last(), sep).push(sep) + f.last()).push(m));
    }
}

proof fn lemma_join_empty_iff(f: Seq<Seq<char>>, sep: char)
    requires
        forall|i: int| 0 <= i < f.len() ==> #[trigger] f[i].len() > 0,
    ensures
        (join_with(f, sep).len() == 0) == (f.len() == 0),
{
    if f.len() == 1 {
        assert(f[0].len() > 0);
    } else if f.len() > 1 {
        assert(f.last().len() > 0);
    }
}

/// Lower-case identifier made of the alphanumeric runs of a text joined by
/// `_` (see `slug_of`).
pub fn slugify(s: &str) -> (r: String)
    ensures
        r@ == slug_of(s@),
{
    let cs = chars_of(s);
    let ghost mapped = s@.map_values(|c: char| slug_char(c));
    let mut out: Vec<char> = Vec::new();
    let mut pending = false;
    let mut i: usize = 0;
    proof {
        assert(mapped.take(0) =~= seq![]);
        let e: Seq<Seq<char>> = seq![Seq::<char>::empty()];
        assert(split_at_char(mapped.take(0), '_') == e);
        assert(non_empty_parts(e).len() == 0) by {
            assert(e.drop_last() =~= Seq::<Seq<char>>::empty());
            assert(e.last().len() == 0);
            assert(non_empty_parts(Seq::<Seq<char>>::empty()).len() == 0);
            assert(non_empty_parts(e) == non_empty_parts(e.drop_last()));
        }
    }
    while i < cs.len()
        invariant
            0 <= i <= cs.len(),
            cs@ == s@,
            mapped == s@.map_values(|c: char| slug_char(c)),
            ({
                let p = split_at_char(mapped.take(i as int), '_');
                let f = non_empty_parts(p);
                &&& out@ == join_with(f, '_')
                &&& pending == (f.len() > 0 && p.last().len() == 0)
            }),
        decreases cs.len() - i,
    {
        let c = cs[i];
        let alnum = char_is_alphanumeric(c);
        let m = if alnum {
            lower_ascii(c)
        } else {
            '_'
        };
        let ghost t = mapped.take(i as int);
        let ghost p = split_at_char(t, '_');
        let ghost f = non_empty_parts(p);
        proof {
            assert(mapped.take(i + 1) =~= t.push(m));
            assert(t.push(m).drop_last() =~= t);
            lemma_split_nonempty(t, '_');
            lemma_parts_non_empty(p);
            lemma_join_empty_iff(f, '_');
        }
        if m == '_' {
            if out.len() > 0 {
                pending = true;
            }
            proof {
                let p2 = p.push(seq![]);
                assert(split_at_char(t.push(m), '_') == p2);
                assert(p2.drop_last() =~= p);
                assert(non_empty_parts(p2) == f);
            }
        } else {
            let ghost last = p.last();
            let ghost p2 = p.update(p.len() - 1, last.push(m));
            proof {
                assert(split_at_char(t.push(m), '_') == p2);
                assert(p2.drop_last() =~= p.drop_last());
                assert(p2.last() == last.push(m));
            }
            if pending {
                out.push('_');
                out.push(m);
                pending = false;
                proof {
                    assert(non_empty_parts(p2) == non_empty_parts(p.drop_last()).push(last.push(m)));
                    assert(non_empty_parts(p) == non_empty_parts(p.drop_last()));
                    lemma_join_push(f, seq![m], '_');
                    assert(last.push(m) =~= seq![m]);
                    assert(out@ =~= join_with(f, '_').push('_') + seq![m]);
                }
            } else if out.len() == 0 {
                out.push(m);
                proof {
                    assert(f.len() == 0);
                    if last.len() > 0 {
                        assert(non_empty_parts(p) == non_empty_parts(p.drop_last()).push(last));
                        assert(false);
                    }
                    assert(non_empty_parts(p2) == non_empty_parts(p.drop_last()).push(last.push(m)));
                    assert(non_empty_parts(p) == non_empty_parts(p.drop_last()));
                    lemma_join_push(f, last.push(m), '_');
                    assert(last.push(m) =~= seq![m]);
                    assert(out@ =~= seq![m]);
                }
            } else {
                out.push(m);
                proof {
                    assert(last.len() > 0);
                    assert(f == non_empty_parts(p.drop_last()).push(last));
                    assert(non_empty_parts(p2) == non_empty_parts(p.drop_last()).push(last.push(m)));
                    assert(non_empty_parts(p2) =~= f.update(f.len() - 1, f.last().push(m)));
                    lemma_join_extend(f, m, '_');
                }
            }
        }
        i = i + 1;
    }
    proof {
        assert(mapped.take(cs@.len() as int) =~= mapped);
    }
    string_of(&out)
}

// ---------------------------------------------------------------------------
// Assets

/// An SVG document waiting to be written into the asset directory, with the
/// position in the element list of the element whose `image_path` names it
/// (`None` when that element was left out of the list).
pub struct SvgFile {
    pub file_name: String,
    pub content: String,
    pub element_index: Option<usize>,
}

/// Asset extraction state: the directory assets go to, the image fills seen
/// so far as `(node id, image hash)` pairs, and the SVG documents to write.
pub struct AssetContext {
    pub dir: String,
    pub image_refs: Vec<(String, String)>,
    pub svg_files: Vec<SvgFile>,
}

/// Model of an `SvgFile`.
pub struct SvgFileView {
    pub file_name: Seq<char>,
    pub content: Seq<char>,
    pub element_index: Option<usize>,
}

/// Model of an `AssetContext`.
pub struct AssetsView {
    pub dir: Seq<char>,
    pub image_refs: Seq<(Seq<char>, Seq<char>)>,
    pub svg_files: Seq<SvgFileView>,
}

impl View for SvgFile {
    type V = SvgFileView;

    open spec fn view(&self) -> SvgFileView {
        SvgFileView {
            file_name: self.file_name@,
            content: self.content@,
            element_index: self.element_index,
        }
    }
}

/// Model of a list of text pairs.
pub open spec fn text_pairs(v: Seq<(String, String)>) -> Seq<(Seq<char>, Seq<char>)> {
    v.map_values(|p: (String, String)| (p.0@, p.1@))
}

impl View for AssetContext {
    type V = AssetsView;

    open spec fn view(&self) -> AssetsView {
        AssetsView {
            dir: self.dir@,
            image_refs: text_pairs(self.image_refs@),
            svg_files: self.svg_files@.map_values(|f: SvgFile| f@),
        }
    }
}

/// Model of an optional `AssetContext`.
pub open spec fn opt_assets(a: Option<AssetContext>) -> Option<AssetsView> {
    match a {
        Some(a) => Some(a@),
        None => None,
    }
}

impl AssetContext {
    /// An empty asset context for the directory `dir`.
    pub fn new(dir: String) -> (r: AssetContext)
        ensures
            r@ == (AssetsView { dir: dir@, image_refs: seq![], svg_files: seq![] }),
    {
        let r = AssetContext { dir, image_refs: Vec::new(), svg_files: Vec::new() };
        assert(r@.image_refs =~= seq![]);
        assert(r@.svg_files =~= seq![]);
        r
    }
}

/// Node types whose outlines are saved as SVG documents.
pub open spec fn is_vector_type(t: Seq<char>) -> bool {
    t == "VECTOR"@ || t == "LINE"@ || t == "STAR"@ || t == "POLYGON"@ || t == "BOOLEAN_OPERATION"@
}

/// Whether some paint of the list is not hidden and refers to an image.
pub open spec fn has_image_fill(fills: Option<Seq<PaintView>>) -> bool {
    match fills {
        Some(f) => exists|i: int|
            0 <= i < f.len() && (#[trigger] f[i]).image_ref is Some && f[i].visible != Some(false),
        None => false,
    }
}

/// The image hash of the first paint in the list that is not hidden and
/// refers to an image.
pub open spec fn first_image_ref(p: Seq<PaintView>) -> Option<Seq<char>>
    decreases p.len(),
{
    if p.len() == 0 {
        None
    } else if p[0].visible == Some(false) {
        first_image_ref(p.drop_first())
    } else {
        match p[0].image_ref {
            Some(h) => Some(h),
            None => first_image_ref(p.drop_first()),
        }
    }
}

/// SVG `<path>` elements for fill outlines, each filled with `color` and
/// using the path's winding rule lower-cased (`nonzero` when it has none).
pub open spec fn fill_path_elements(ps: Seq<VectorPathView>, color: Seq<char>) -> Seq<char>
    decreases ps.len(),
{
    if ps.len() == 0 {
        seq![]
    } else {
        let p = ps.last();
        let rule = match p.winding_rule {
            Some(r) => r,
            None => "nonzero"@,
        };
        fill_path_elements(ps.drop_last(), color) + "<path d=\""@ + p.path + "\" fill=\""@ + color
            + "\" fill-rule=\""@ + unicode_lowercase(rule) + "\"/>"@
    }
}

/// SVG `<path>` elements for stroke outlines, unfilled and stroked with `color`.
pub open spec fn stroke_path_elements(ps: Seq<VectorPathView>, color: Seq<char>) -> Seq<char>
    decreases ps.len(),
{
    if ps.len() == 0 {
        seq![]
    } else {
        stroke_path_elements(ps.drop_last(), color) + "<path d=\""@ + ps.last().path
            + "\" fill=\"none\" stroke=\""@ + color + "\"/>"@
    }
}

/// The colour used for outlines: the paint list's colour, else `#000000`.
pub open spec fn outline_color(p: Option<Seq<PaintView>>) -> Seq<char> {
    match fill_color_of(p) {
        Some(c) => c,
        None => "#000000"@,
    }
}

/// The SVG document for a vector node: an `<svg>` element of the node's size
/// holding its fill outlines, then its stroke outlines.
pub open spec fn svg_text(n: FigmaNodeView, b: BoundingBox) -> Seq<char> {
    let w = fixed_text_of(b.width as int);
    let h = fixed_text_of(b.height as int);
    let fills = match n.fill_geometry {
        Some(ps) => fill_path_elements(ps, outline_color(n.fills)),
        None => seq![],
    };
    let strokes = match n.stroke_geometry {
        Some(ps) => stroke_path_elements(ps, outline_color(n.strokes)),
        None => seq![],
    };
    "<svg xmlns=\"http://www.w3.org/2000/svg\" width=\""@ + w + "\" height=\""@ + h
        + "\" viewBox=\"0 0 "@ + w + " "@ + h + "\">"@ + fills + strokes + "</svg>"@
}

/// Whether a node has at least one fill or stroke outline.
pub open spec fn has_outlines(n: FigmaNodeView) -> bool {
    (n.fill_geometry is Some && n.fill_geometry->0.len() > 0) || (n.stroke_geometry is Some
        && n.stroke_geometry->0.len() > 0)
}

/// Saving a vector node: with outlines, its SVG document is queued as
/// `<name>.svg` and the element refers to `assets/<name>.svg`; without, nothing.
pub open spec fn save_svg_of(
    a: AssetsView,
    name: Seq<char>,
    n: FigmaNodeView,
    b: BoundingBox,
    index: Option<usize>,
) -> (AssetsView, Option<Seq<char>>) {
    if !has_outlines(n) {
        (a, None)
    } else {
        let file = SvgFileView { file_name: name + ".svg"@, content: svg_text(n, b), element_index: index };
        (AssetsView { svg_files: a.svg_files.push(file), ..a }, Some("assets/"@ + name + ".svg"@))
    }
}

/// Recording an image fill: the first visible image paint's hash is recorded
/// with the node id, and the element refers to `assets/<node id>.png`, the
/// file its render is saved as.
pub open spec fn record_image_ref_of(
    a: AssetsView,
    node_id: Seq<char>,
    fills: Option<Seq<PaintView>>,
) -> (AssetsView, Option<Seq<char>>) {
    match fills {
        None => (a, None),
        Some(f) => match first_image_ref(f) {
            None => (a, None),
            Some(h) => (
                AssetsView { image_refs: a.image_refs.push((node_id, h)), ..a },
                Some("assets/"@ + node_id + ".png"@),
            ),
        },
    }
}

// ---------------------------------------------------------------------------
// The walk over a node tree

/// Elements found so far and the asset state.
pub struct WalkState {
    pub elements: Seq<ElementView>,
    pub assets: Option<AssetsView>,
}

/// Element position relative to the frame origin and size, each rounded to
/// whole points.
pub open spec fn bounds_of(b: BoundingBox, ox: Fixed, oy: Fixed) -> Bounds {
    Bounds {
        x: clamp_i32(round_units(b.x - ox)) as i32,
        y: clamp_i32(round_units(b.y - oy)) as i32,
        w: clamp_i32(round_units(b.width as int)) as i32,
        h: clamp_i32(round_units(b.height as int)) as i32,
    }
}

/// Font of an element: present when the style names a family; the family
/// lower-cased, the weight named (400 when absent), the size (0 when absent).
pub open spec fn font_of(style: Option<TypeStyleView>) -> Option<FontView> {
    match style {
        Some(s) => match s.font_family {
            Some(f) => Some(
                FontView {
                    family: unicode_lowercase(f),
                    weight: weight_name_of(
                        match s.font_weight {
                            Some(w) => w as int,
                            None => 400000000,
                        },
                    ),
                    size: match s.font_size {
                        Some(z) => z,
                        None => 0,
                    },
                },
            ),
            None => None,
        },
        None => None,
    }
}

/// A padding value in whole points (0 when absent).
pub open spec fn pad_of(p: Option<Fixed>) -> i32 {
    clamp_i32(
        trunc_units(
            match p {
                Some(v) => v as int,
                None => 0,
            },
        ),
    ) as i32
}

/// Padding of an element: present when any side is given.
pub open spec fn padding_of(n: FigmaNodeView) -> Option<Padding> {
    if n.padding_top is Some || n.padding_bottom is Some || n.padding_left is Some
        || n.padding_right is Some {
        Some(
            Padding {
                top: pad_of(n.padding_top),
                bottom: pad_of(n.padding_bottom),
                start: pad_of(n.padding_left),
                end: pad_of(n.padding_right),
            },
        )
    } else {
        None
    }
}

/// Whether a node holds text, itself or in one of its descendants.
pub open spec fn has_text(n: FigmaNodeView) -> bool
    decreases n,
{
    n.characters is Some || match n.children {
        Some(c) => list_has_text(c, c.len() as int),
        None => false,
    }
}

/// Whether one of the first `k` trees of a list holds text.
pub open spec fn list_has_text(cs: Seq<FigmaNodeView>, k: int) -> bool
    decreases cs, k,
{
    if k <= 0 || k > cs.len() {
        false
    } else {
        list_has_text(cs, k - 1) || has_text(cs[k - 1])
    }
}

/// Identifier of an element: the slug of its text, else of its name.
pub open spec fn element_id_of(n: FigmaNodeView) -> Seq<char> {
    match n.characters {
        Some(c) => slug_of(c),
        None => slug_of(n.name),
    }
}

/// Large text-less containers (over 300 by 300 points) are left out.
pub open spec fn skipped(elem_type: Seq<char>, content: Option<Seq<char>>, bounds: Bounds) -> bool {
    elem_type == "container"@ && content is None && bounds.w > 300 && bounds.h > 300
}

/// The element made from a node with a bounding box.
pub open spec fn element_of(
    n: FigmaNodeView,
    b: BoundingBox,
    ox: Fixed,
    oy: Fixed,
    image_path: Option<Seq<char>>,
) -> ElementView {
    ElementView {
        id: element_id_of(n),
        platform_id: Some(n.id),
        elem_type: classify_type(n.node_type, has_text(n)),
        content: n.characters,
        font: font_of(n.style),
        color: fill_color_of(n.fills),
        bounds: bounds_of(b, ox, oy),
        clickable: false,
        background: if n.node_type != "TEXT"@ {
            fill_color_of(n.fills)
        } else {
            None
        },
        corner_radius: n.corner_radius,
        padding: padding_of(n),
        icon: None,
        render: None,
        image_path,
        children: None,
    }
}

/// Asset work for a node with a bounding box: vectors are saved as SVG,
/// nodes with an image fill have it recorded, others need nothing.
pub open spec fn node_assets_of(
    a: Option<AssetsView>,
    n: FigmaNodeView,
    b: BoundingBox,
    index: Option<usize>,
) -> (Option<AssetsView>, Option<Seq<char>>) {
    match a {
        None => (None, None),
        Some(a) => if is_vector_type(n.node_type) {
            let r = save_svg_of(a, element_id_of(n), n, b, index);
            (Some(r.0), r.1)
        } else if has_image_fill(n.fills) {
            let r = record_image_ref_of(a, n.id, n.fills);
            (Some(r.0), r.1)
        } else {
            (Some(a), None)
        },
    }
}

/// One node with a bounding box: its element is appended unless skipped.
pub open spec fn node_step(n: FigmaNodeView, b: BoundingBox, ox: Fixed, oy: Fixed, st: WalkState) -> WalkState {
    let elem_type = classify_type(n.node_type, has_text(n));
    let skip = skipped(elem_type, n.characters, bounds_of(b, ox, oy));
    let index: Option<usize> = if skip {
        None
    } else {
        Some(st.elements.len() as usize)
    };
    let r = node_assets_of(st.assets, n, b, index);
    WalkState {
        elements: if skip {
            st.elements
        } else {
            st.elements.push(element_of(n, b, ox, oy, r.1))
        },
        assets: r.0,
    }
}

/// The walk over a node and its subtree in pre-order: hidden nodes and
/// their subtrees are passed over; nodes without a bounding box add no
/// element but their children are walked.
pub open spec fn walk(n: FigmaNodeView, ox: Fixed, oy: Fixed, st: WalkState) -> WalkState
    decreases n,
{
    if n.visible == Some(false) {
        st
    } else {
        let st1 = match n.absolute_bounding_box {
            Some(b) => node_step(n, b, ox, oy, st),
            None => st,
        };
        match n.children {
            Some(c) => walk_list(c, c.len() as int, ox, oy, st1),
            None => st1,
        }
    }
}

/// The walk over the first `k` nodes of a list, in order.
pub open spec fn walk_list(cs: Seq<FigmaNodeView>, k: int, ox: Fixed, oy: Fixed, st: WalkState) -> WalkState
    decreases cs, k,
{
    if k <= 0 || k > cs.len() {
        st
    } else {
        walk(cs[k - 1], ox, oy, walk_list(cs, k - 1, ox, oy, st))
    }
}

// ---------------------------------------------------------------------------
// Executable asset work

/// A copy of an optional text.
pub fn clone_text(o: &Option<String>) -> (r: Option<String>)
    ensures
        opt_text(r) == opt_text(*o),
{
    match o {
        Some(s) => Some(s.clone()),
        None => None,
    }
}

fn push_fill_paths(out: &mut String, ps: &Vec<VectorPath>, color: &str)
    ensures
        final(out)@ == old(out)@ + fill_path_elements(ps@.map_values(|x: VectorPath| x@), color@),
{
    let ghost all = ps@.map_values(|x: VectorPath| x@);
    let ghost start = out@;
    let mut i: usize = 0;
    assert(all.take(0) =~= seq![]);
    while i < ps.len()
        invariant
            0 <= i <= ps.len(),
            all == ps@.map_values(|x: VectorPath| x@),
            out@ == start + fill_path_elements(all.take(i as int), color@),
        decreases ps.len() - i,
    {
        let p = &ps[i];
        let lowered = match &p.winding_rule {
            Some(r) => str_to_lowercase(r.as_str()),
            None => str_to_lowercase("nonzero"),
        };
        out.push_str("<path d=\"");
        out.push_str(p.path.as_str());
        out.push_str("\" fill=\"");
        out.push_str(color);
        out.push_str("\" fill-rule=\"");
        out.push_str(lowered.as_str());
        out.push_str("\"/>");
        proof {
            let t = all.take(i + 1);
            assert(t.drop_last() =~= all.take(i as int));
            assert(t.last() == p@);
            assert(out@ =~= start + fill_path_elements(t, color@));
        }
        i = i + 1;
    }
    assert(all.take(ps.len() as int) =~= all);
}

fn push_stroke_paths(out: &mut String, ps: &Vec<VectorPath>, color: &str)
    ensures
        final(out)@ == old(out)@ + stroke_path_elements(ps@.map_values(|x: VectorPath| x@), color@),
{
    let ghost all = ps@.map_values(|x: VectorPath| x@);
    let ghost start = out@;
    let mut i: usize = 0;
    assert(all.take(0) =~= seq![]);
    while i < ps.len()
        invariant
            0 <= i <= ps.len(),
            all == ps@.map_values(|x: VectorPath| x@),
            out@ == start + stroke_path_elements(all.take(i as int), color@),
        decreases ps.len() - i,
    {
        let p = &ps[i];
        out.push_str("<path d=\"");
        out.push_str(p.path.as_str());
        out.push_str("\" fill=\"none\" stroke=\"");
        out.push_str(color);
        out.push_str("\"/>");
        proof {
            let t = all.take(i + 1);
            assert(t.drop_last() =~= all.take(i as int));
            assert(t.last() == p@);
            assert(out@ =~= start + stroke_path_elements(t, color@));
        }
        i = i + 1;
    }
    assert(all.take(ps.len() as int) =~= all);
}

fn outline_color_text(p: &Option<Vec<Paint>>) -> (r: String)
    ensures
        r@ == outline_color(opt_paints(*p)),
{
    match extract_fill_color(p) {
        Some(c) => c,
        None => owned("#000000"),
    }
}

/// The SVG document of a vector node (see `svg_text`).
pub fn svg_document(node: &FigmaNode, bbox: &BoundingBox) -> (r: String)
    ensures
        r@ == svg_text(node@, *bbox),
{
    let w = fixed_text(bbox.width);
    let h = fixed_text(bbox.height);
    let fill_color = outline_color_text(&node.fills);
    let stroke_color = outline_color_text(&node.strokes);
    let mut svg = String::new();
    svg.push_str("<svg xmlns=\"http://www.w3.org/2000/svg\" width=\"");
    svg.push_str(w.as_str());
    svg.push_str("\" height=\"");
    svg.push_str(h.as_str());
    svg.push_str("\" viewBox=\"0 0 ");
    svg.push_str(w.as_str());
    svg.push_str(" ");
    svg.push_str(h.as_str());
    svg.push_str("\">");
    let ghost head = svg@;
    match &node.fill_geometry {
        Some(ps) => push_fill_paths(&mut svg, ps, fill_color.as_str()),
        None => {},
    }
    let ghost mid = svg@;
    match &node.stroke_geometry {
        Some(ps) => push_stroke_paths(&mut svg, ps, stroke_color.as_str()),
        None => {},
    }
    let ghost tail = svg@;
    svg.push_str("</svg>");
    proof {
        let n = node@;
        let fills = match n.fill_geometry {
            Some(ps) => fill_path_elements(ps, outline_color(n.fills)),
            None => seq![],
        };
        let strokes = match n.stroke_geometry {
            Some(ps) => stroke_path_elements(ps, outline_color(n.strokes)),
            None => seq![],
        };
        assert(mid =~= head + fills);
        assert(tail =~= head + fills + strokes);
        assert(svg@ =~= svg_text(n, *bbox));
    }
    svg
}

impl AssetContext {
    /// Queues the SVG document of a vector node as `<name>.svg` and returns
    /// the path `assets/<name>.svg` the element refers to; a node without
    /// outlines gives nothing (see `save_svg_of`).
    pub fn save_svg(
        &mut self,
        name: &str,
        node: &FigmaNode,
        bbox: &BoundingBox,
        element_index: Option<usize>,
    ) -> (r: Option<String>)
        ensures
            (final(self)@, opt_text(r)) == save_svg_of(old(self)@, name@, node@, *bbox, element_index),
    {
        let has_fills = match &node.fill_geometry {
            Some(v) => v.len() > 0,
            None => false,
        };
        let has_strokes = match &node.stroke_geometry {
            Some(v) => v.len() > 0,
            None => false,
        };
        if !has_fills && !has_strokes {
            return None;
        }
        let content = svg_document(node, bbox);
        let mut file_name = owned(name);
        file_name.push_str(".svg");
        let mut path = owned("assets/");
        path.push_str(file_name.as_str());
        let ghost file_view = file_name@;
        self.svg_files.push(SvgFile { file_name, content, element_index });
        proof {
            let a = old(self)@;
            let file = SvgFileView { file_name: name@ + ".svg"@, content: svg_text(node@, *bbox), element_index };
            assert(self@.svg_files =~= a.svg_files.push(file));
            assert(path@ =~= "assets/"@ + name@ + ".svg"@);
        }
        Some(path)
    }

    /// Records the first visible image fill of a node as `(node id, image
    /// hash)` and returns the path `assets/<node id>.png` the element refers to
    /// (see `record_image_ref_of`).
    pub fn record_image_ref(&mut self, node_id: &str, fills: &Option<Vec<Paint>>) -> (r: Option<String>)
        ensures
            (final(self)@, opt_text(r)) == record_image_ref_of(old(self)@, node_id@, opt_paints(*fills)),
    {
        let v = match fills {
            Some(v) => v,
            None => {
                return None;
            },
        };
        let ghost all = v@.map_values(|x: Paint| x@);
        let mut i: usize = 0;
        assert(all.subrange(0, all.len() as int) =~= all);
        while i < v.len()
            invariant
                0 <= i <= v.len(),
                all == v@.map_values(|x: Paint| x@),
                opt_paints(*fills) == Some(all),
                *self == *old(self),
                first_image_ref(all) == first_image_ref(all.subrange(i as int, all.len() as int)),
            decreases v.len() - i,
        {
            let ghost rest = all.subrange(i as int, all.len() as int);
            assert(rest.drop_first() =~= all.subrange(i + 1, all.len() as int));
            assert(rest[0] == v@[i as int]@);
            let f = &v[i];
            if f.visible == Some(false) {
                i = i + 1;
                continue;
            }
            match &f.image_ref {
                Some(hash) => {
                    assert(first_image_ref(rest) == Some(hash@));
                    let mut path = owned("assets/");
                    path.push_str(node_id);
                    path.push_str(".png");
                    self.image_refs.push((owned(node_id), hash.clone()));
                    proof {
                        assert(self@.image_refs =~= old(self)@.image_refs.push((node_id@, hash@)));
                        assert(self@.svg_files == old(self)@.svg_files);
                        assert(path@ =~= "assets/"@ + node_id@ + ".png"@);
                    }
                    return Some(path);
                },
                None => {},
            }
            i = i + 1;
        }
        assert(all.subrange(i as int, all.len() as int).len() == 0);
        None
    }
}

// ---------------------------------------------------------------------------
// Executable walk

fn is_vector_node_type(t: &str) -> (r: bool)
    ensures
        r == is_vector_type(t@),
{
    text_eq(t, "VECTOR") || text_eq(t, "LINE") || text_eq(t, "STAR") || text_eq(t, "POLYGON")
        || text_eq(t, "BOOLEAN_OPERATION")
}

fn has_image_fill_exec(fills: &Option<Vec<Paint>>) -> (r: bool)
    ensures
        r == has_image_fill(opt_paints(*fills)),
{
    match fills {
        None => false,
        Some(v) => {
            let ghost all = v@.map_values(|x: Paint| x@);
            let mut i: usize = 0;
            while i < v.len()
                invariant
                    0 <= i <= v.len(),
                    all == v@.map_values(|x: Paint| x@),
                    opt_paints(*fills) == Some(all),
                    forall|j: int| 0 <= j < i ==> !((#[trigger] all[j]).image_ref is Some && all[j].visible != Some(false)),
                decreases v.len() - i,
            {
                if v[i].image_ref.is_some() && v[i].visible != Some(false) {
                    assert(all[i as int] == v@[i as int]@);
                    return true;
                }
                assert(all[i as int] == v@[i as int]@);
                i = i + 1;
            }
            false
        },
    }
}

fn font_exec(style: &Option<TypeStyle>) -> (r: Option<Font>)
    ensures
        opt_font(r) == font_of(opt_style(*style)),
{
    match style {
        None => None,
        Some(s) => match &s.font_family {
            None => None,
            Some(family) => {
                let w: Fixed = match s.font_weight {
                    Some(w) => w,
                    None => 400000000,
                };
                let size: Fixed = match s.font_size {
                    Some(z) => z,
                    None => 0,
                };
                Some(Font { family: str_to_lowercase(family.as_str()), weight: weight_name(w), size })
            },
        },
    }
}

fn pad_exec(p: Option<Fixed>) -> (r: i32)
    ensures
        r == pad_of(p),
{
    match p {
        Some(v) => trunc_to_i32(v),
        None => trunc_to_i32(0),
    }
}

fn padding_exec(node: &FigmaNode) -> (r: Option<Padding>)
    ensures
        r == padding_of(node@),
{
    if node.padding_top.is_some() || node.padding_bottom.is_some() || node.padding_left.is_some()
        || node.padding_right.is_some() {
        Some(
            Padding {
                top: pad_exec(node.padding_top),
                bottom: pad_exec(node.padding_bottom),
                start: pad_exec(node.padding_left),
                end: pad_exec(node.padding_right),
            },
        )
    } else {
        None
    }
}

fn bounds_exec(b: &BoundingBox, ox: Fixed, oy: Fixed) -> (r: Bounds)
    ensures
        r == bounds_of(*b, ox, oy),
{
    Bounds {
        x: round_to_i32(b.x as i128 - ox as i128),
        y: round_to_i32(b.y as i128 - oy as i128),
        w: round_to_i32(b.width as i128),
        h: round_to_i32(b.height as i128),
    }
}

proof fn lemma_list_has_text_grows(cs: Seq<FigmaNodeView>, k: int, j: int)
    requires
        0 <= k <= j <= cs.len(),
        list_has_text(cs, k),
    ensures
        list_has_text(cs, j),
    decreases j - k,
{
    if k < j {
        lemma_list_has_text_grows(cs, k, j - 1);
    }
}

/// Whether a node holds text, itself or in one of its descendants (see `has_text`).
fn subtree_has_text(node: &FigmaNode) -> (r: bool)
    ensures
        r == has_text(node@),
    decreases node,
{
    if node.characters.is_some() {
        return true;
    }
    match &node.children {
        None => false,
        Some(children) => {
            let ghost cv = nodes_view(children@);
            let mut i: usize = 0;
            while i < children.len()
                invariant
                    0 <= i <= children.len(),
                    node.children == Some(*children),
                    node.characters is None,
                    cv == nodes_view(children@),
                    !list_has_text(cv, i as int),
                decreases children.len() - i,
            {
                proof {
                    assert(decreases_to!(*node => node.children));
                    assert(decreases_to!(node.children => node.children->0));
                    assert(decreases_to!(node.children->0 => node.children->0@));
                    assert(decreases_to!(node.children->0@ => node.children->0@[i as int]));
                    assert(cv[i as int] == children@[i as int]@);
                }
                if subtree_has_text(&children[i]) {
                    proof {
                        lemma_list_has_text_grows(cv, i + 1, cv.len() as int);
                    }
                    return true;
                }
                i = i + 1;
            }
            false
        },
    }
}

/// The element of one node with a bounding box, with its asset work done
/// (see `node_step`); `None` when the element is left out.
fn node_element(
    node: &FigmaNode,
    bbox: &BoundingBox,
    ox: Fixed,
    oy: Fixed,
    next_index: usize,
    assets: &mut Option<AssetContext>,
    Ghost(els): Ghost<Seq<ElementView>>,
) -> (r: Option<SemanticElement>)
    requires
        els.len() == next_index,
    ensures
        ({
            let st = WalkState { elements: els, assets: opt_assets(*old(assets)) };
            let post = node_step(node@, *bbox, ox, oy, st);
            &&& opt_assets(*final(assets)) == post.assets
            &&& match r {
                Some(e) => post.elements == st.elements.push(e@),
                None => post.elements == st.elements,
            }
        }),
{
    let ghost n = node@;
    let bounds = bounds_exec(bbox, ox, oy);
    let elem_type = classify_figma_type(node.node_type.as_str(), subtree_has_text(node));
    let content = clone_text(&node.characters);
    let id = match &node.characters {
        Some(c) => slugify(c.as_str()),
        None => slugify(node.name.as_str()),
    };
    let skip = text_eq(elem_type.as_str(), "container") && content.is_none() && bounds.w > 300
        && bounds.h > 300;
    let index: Option<usize> = if skip {
        None
    } else {
        Some(next_index)
    };
    let image_path: Option<String> = match assets {
        None => None,
        Some(ctx) => {
            if is_vector_node_type(node.node_type.as_str()) {
                ctx.save_svg(id.as_str(), node, bbox, index)
            } else if has_image_fill_exec(&node.fills) {
                ctx.record_image_ref(node.id.as_str(), &node.fills)
            } else {
                None
            }
        },
    };
    if skip {
        return None;
    }
    let color = extract_fill_color(&node.fills);
    let background = if !text_eq(node.node_type.as_str(), "TEXT") {
        extract_fill_color(&node.fills)
    } else {
        None
    };
    let e = SemanticElement {
        id,
        platform_id: Some(node.id.clone()),
        elem_type,
        content,
        font: font_exec(&node.style),
        color,
        bounds,
        clickable: false,
        background,
        corner_radius: node.corner_radius,
        padding: padding_exec(node),
        icon: None,
        render: None,
        image_path,
        children: None,
    };
    proof {
        assert(e@ == element_of(n, *bbox, ox, oy, opt_text(e.image_path)));
    }
    Some(e)
}

/// Models of a list of elements with one more element appended.
proof fn lemma_elements_push(v: Seq<SemanticElement>, e: SemanticElement)
    ensures
        elements_view(v.push(e)) == elements_view(v).push(e@),
{
    assert(elements_view(v.push(e)) =~= elements_view(v).push(e@));
}

/// Walks a node and its subtree, appending the elements it yields and doing
/// the asset work (see `walk`).
pub fn walk_node(
    node: &FigmaNode,
    origin_x: Fixed,
    origin_y: Fixed,
    elements: &mut Vec<SemanticElement>,
    assets: &mut Option<AssetContext>,
)
    ensures
        (WalkState { elements: elements_view(final(elements)@), assets: opt_assets(*final(assets)) }) == walk(
            node@,
            origin_x,
            origin_y,
            WalkState { elements: elements_view(old(elements)@), assets: opt_assets(*old(assets)) },
        ),
    decreases node,
{
    if node.visible == Some(false) {
        return;
    }
    match &node.absolute_bounding_box {
        Some(b) => {
            let next = elements.len();
            let ghost st = WalkState { elements: elements_view(elements@), assets: opt_assets(*assets) };
            let r = node_element(node, b, origin_x, origin_y, next, assets, Ghost(st.elements));
            match r {
                Some(e) => {
                    proof {
                        lemma_elements_push(elements@, e);
                    }
                    elements.push(e);
                },
                None => {},
            }
        },
        None => {},
    }
    let ghost st1 = WalkState { elements: elements_view(elements@), assets: opt_assets(*assets) };
    assert(st1 == (match node@.absolute_bounding_box {
        Some(b) => node_step(node@, b, origin_x, origin_y, WalkState { elements: elements_view(old(elements)@), assets: opt_assets(*old(assets)) }),
        None => WalkState { elements: elements_view(old(elements)@), assets: opt_assets(*old(assets)) },
    }));
    match &node.children {
        None => {},
        Some(children) => {
            let ghost cv = nodes_view(children@);
            let mut i: usize = 0;
            while i < children.len()
                invariant
                    0 <= i <= children.len(),
                    node.children == Some(*children),
                    cv == nodes_view(children@),
                    (WalkState { elements: elements_view(elements@), assets: opt_assets(*assets) }) == walk_list(cv, i as int, origin_x, origin_y, st1),
                decreases children.len() - i,
            {
                proof {
                    assert(decreases_to!(*node => node.children));
                    assert(decreases_to!(node.children => node.children->0));
                    assert(decreases_to!(node.children->0 => node.children->0@));
                    assert(decreases_to!(node.children->0@ => node.children->0@[i as int]));
                    assert(cv[i as int] == children@[i as int]@);
                }
                walk_node(&children[i], origin_x, origin_y, elements, assets);
                i = i + 1;
            }
        },
    }
}

// ---------------------------------------------------------------------------
// Schema extraction

/// The point element positions are measured from: the node's own bounding
/// box, else the given frame box, else `(0, 0)`.
pub open spec fn frame_origin(n: FigmaNodeView, frame_box: Option<BoundingBox>) -> (Fixed, Fixed) {
    match n.absolute_bounding_box {
        Some(b) => (b.x, b.y),
        None => match frame_box {
            Some(b) => (b.x, b.y),
            None => (0, 0),
        },
    }
}

/// The walk over a whole tree from an empty element list.
pub open spec fn extraction_of(
    n: FigmaNodeView,
    frame_box: Option<BoundingBox>,
    assets: Option<AssetsView>,
) -> WalkState {
    let o = frame_origin(n, frame_box);
    walk(n, o.0, o.1, WalkState { elements: seq![], assets })
}

/// The timestamp text: the UTC date and time `secs` seconds after the Unix
/// epoch in ISO 8601 form, such as `2026-05-23T00:15:00Z`.
pub open spec fn timestamp_text(secs: u64) -> Seq<char> {
    crate::calendar::iso_timestamp(secs)
}

/// The schema of a tree: the tree's name as screen, `figma` as device and
/// platform, the timestamp, and the elements of the walk.
pub open spec fn schema_of(
    n: FigmaNodeView,
    frame_box: Option<BoundingBox>,
    assets: Option<AssetsView>,
    secs: u64,
) -> SchemaView {
    SchemaView {
        screen: n.name,
        device: "figma"@,
        platform: "figma"@,
        timestamp: timestamp_text(secs),
        elements: extraction_of(n, frame_box, assets).elements,
    }
}

/// A point in time of the system clock.
#[verifier::external_type_specification]
#[verifier::external_body]
pub struct ExSystemTime(std::time::SystemTime);

/// Calls `SystemTime::now`. Nothing is claimed of the reading.
#[verifier::external_body]
fn system_now() -> (r: std::time::SystemTime) {
    std::time::SystemTime::now()
}

/// Calls `SystemTime::duration_since` with `UNIX_EPOCH`: the time since the
/// epoch, or `None` for a reading before it. Nothing is claimed of the value.
#[verifier::external_body]
fn since_unix_epoch(t: &std::time::SystemTime) -> (r: Option<std::time::Duration>) {
    t.duration_since(std::time::UNIX_EPOCH).ok()
}

/// Calls `Duration::as_secs`: the whole seconds of a duration. Nothing is
/// claimed of the value.
#[verifier::external_body]
fn whole_seconds(d: &std::time::Duration) -> (r: u64) {
    d.as_secs()
}

/// Reads the system clock as whole seconds since the Unix epoch (0 for a
/// clock set before it). Nothing is known of the reading.
pub(crate) fn unix_seconds_now() -> u64 {
    let now = system_now();
    match since_unix_epoch(&now) {
        Some(d) => whole_seconds(&d),
        None => 0,
    }
}

/// The timestamp text for a number of seconds since the Unix epoch.
pub fn timestamp_at(secs: u64) -> (r: String)
    ensures
        r@ == timestamp_text(secs),
{
    crate::calendar::iso_timestamp_at(secs)
}

/// The current time as a timestamp text.
pub fn chrono_now() -> (r: String)
    ensures
        exists|secs: u64| r@ == timestamp_text(secs),
{
    timestamp_at(unix_seconds_now())
}

/// The schema of a node tree for a given time (see `schema_of`), doing the
/// asset work when an asset context is given.
pub fn extract_schema_at(
    node: &FigmaNode,
    frame_box: Option<&BoundingBox>,
    assets: &mut Option<AssetContext>,
    now_secs: u64,
) -> (r: SemanticSchema)
    ensures
        r@ == schema_of(
            node@,
            match frame_box {
                Some(b) => Some(*b),
                None => None,
            },
            opt_assets(*old(assets)),
            now_secs,
        ),
        opt_assets(*final(assets)) == extraction_of(
            node@,
            match frame_box {
                Some(b) => Some(*b),
                None => None,
            },
            opt_assets(*old(assets)),
        ).assets,
{
    let (origin_x, origin_y): (Fixed, Fixed) = match &node.absolute_bounding_box {
        Some(b) => (b.x, b.y),
        None => match frame_box {
            Some(b) => (b.x, b.y),
            None => (0, 0),
        },
    };
    let mut elements: Vec<SemanticElement> = Vec::new();
    proof {
        assert(elements_view(elements@) =~= seq![]);
    }
    walk_node(node, origin_x, origin_y, &mut elements, assets);
    SemanticSchema {
        screen: node.name.clone(),
        device: owned("figma"),
        platform: owned("figma"),
        timestamp: timestamp_at(now_secs),
        elements,
    }
}

/// The schema of a node tree at the current time, doing the asset work
/// when an asset context is given.
pub fn extract_schema_with_assets(
    node: &FigmaNode,
    frame_box: Option<&BoundingBox>,
    assets: &mut Option<AssetContext>,
) -> (r: SemanticSchema)
    ensures
        exists|secs: u64|
            r.timestamp@ == #[trigger] timestamp_text(secs) && r@ == schema_of(
                node@,
                match frame_box {
                    Some(b) => Some(*b),
                    None => None,
                },
                opt_assets(*old(assets)),
                secs,
            ),
        opt_assets(*final(assets)) == extraction_of(
            node@,
            match frame_box {
                Some(b) => Some(*b),
                None => None,
            },
            opt_assets(*old(assets)),
        ).assets,
{
    let secs = unix_seconds_now();
    extract_schema_at(node, frame_box, assets, secs)
}

/// The schema of a node tree at the current time, without asset work.
pub fn extract_schema(node: &FigmaNode, frame_box: Option<&BoundingBox>) -> (r: SemanticSchema)
    ensures
        exists|secs: u64|
            r.timestamp@ == #[trigger] timestamp_text(secs) && r@ == schema_of(
                node@,
                match frame_box {
                    Some(b) => Some(*b),
                    None => None,
                },
                None,
                secs,
            ),
{
    let mut none: Option<AssetContext> = None;
    extract_schema_with_assets(node, frame_box, &mut none)
}

// ---------------------------------------------------------------------------
// Copies

fn copy_style(s: &Option<TypeStyle>) -> (r: Option<TypeStyle>)
    ensures
        opt_style(r) == opt_style(*s),
{
    match s {
        None => None,
        Some(t) => Some(
            TypeStyle {
                font_family: clone_text(&t.font_family),
                font_weight: t.font_weight,
                font_size: t.font_size,
                letter_spacing: t.letter_spacing,
                line_height_px: t.line_height_px,
            },
        ),
    }
}

fn copy_paints(p: &Option<Vec<Paint>>) -> (r: Option<Vec<Paint>>)
    ensures
        opt_paints(r) == opt_paints(*p),
{
    match p {
        None => None,
        Some(v) => {
            let mut out: Vec<Paint> = Vec::new();
            let mut i: usize = 0;
            while i < v.len()
                invariant
                    0 <= i <= v.len(),
                    out@.len() == i,
                    forall|j: int| 0 <= j < i ==> (#[trigger] out@[j])@ == v@[j]@,
                decreases v.len() - i,
            {
                let f = &v[i];
                out.push(
                    Paint {
                        paint_type: clone_text(&f.paint_type),
                        color: f.color,
                        visible: f.visible,
                        opacity: f.opacity,
                        image_ref: clone_text(&f.image_ref),
                    },
                );
                i = i + 1;
            }
            assert(out@.map_values(|x: Paint| x@) =~= v@.map_values(|x: Paint| x@));
            Some(out)
        },
    }
}

fn copy_paths(p: &Option<Vec<VectorPath>>) -> (r: Option<Vec<VectorPath>>)
    ensures
        opt_paths(r) == opt_paths(*p),
{
    match p {
        None => None,
        Some(v) => {
            let mut out: Vec<VectorPath> = Vec::new();
            let mut i: usize = 0;
            while i < v.len()
                invariant
                    0 <= i <= v.len(),
                    out@.len() == i,
                    forall|j: int| 0 <= j < i ==> (#[trigger] out@[j])@ == v@[j]@,
                decreases v.len() - i,
            {
                let f = &v[i];
                out.push(VectorPath { path: f.path.clone(), winding_rule: clone_text(&f.winding_rule) });
                i = i + 1;
            }
            assert(out@.map_values(|x: VectorPath| x@) =~= v@.map_values(|x: VectorPath| x@));
            Some(out)
        },
    }
}

impl FigmaNode {
    /// A copy of the node and its whole subtree.
    pub fn deep_copy(&self) -> (r: FigmaNode)
        ensures
            r@ == self@,
        decreases self,
    {
        let children = match &self.children {
            None => None,
            Some(c) => {
                let mut out: Vec<FigmaNode> = Vec::new();
                let mut i: usize = 0;
                while i < c.len()
                    invariant
                        0 <= i <= c.len(),
                        self.children == Some(*c),
                        out@.len() == i,
                        forall|j: int| 0 <= j < i ==> (#[trigger] out@[j])@ == c@[j]@,
                    decreases c.len() - i,
                {
                    proof {
                        assert(decreases_to!(*self => self.children));
                        assert(decreases_to!(self.children => self.children->0));
                        assert(decreases_to!(self.children->0 => self.children->0@));
                        assert(decreases_to!(self.children->0@ => self.children->0@[i as int]));
                    }
                    out.push(c[i].deep_copy());
                    i = i + 1;
                }
                assert(nodes_view(out@) =~= nodes_view(c@));
                Some(out)
            },
        };
        let r = FigmaNode {
            id: self.id.clone(),
            name: self.name.clone(),
            node_type: self.node_type.clone(),
            visible: self.visible,
            characters: clone_text(&self.characters),
            style: copy_style(&self.style),
            fills: copy_paints(&self.fills),
            strokes: copy_paints(&self.strokes),
            corner_radius: self.corner_radius,
            absolute_bounding_box: self.absolute_bounding_box,
            padding_left: self.padding_left,
            padding_right: self.padding_right,
            padding_top: self.padding_top,
            padding_bottom: self.padding_bottom,
            item_spacing: self.item_spacing,
            fill_geometry: copy_paths(&self.fill_geometry),
            stroke_geometry: copy_paths(&self.stroke_geometry),
            children,
            component_id: clone_text(&self.component_id),
        };
        proof {
            assert(r@.children == self@.children);
        }
        r
    }
}

/// The walk keeps an asset context when it starts with one, and has none
/// when it starts without.
pub proof fn lemma_walk_keeps_assets(n: FigmaNodeView, ox: Fixed, oy: Fixed, st: WalkState)
    ensures
        (walk(n, ox, oy, st).assets is Some) == (st.assets is Some),
    decreases n,
{
    if n.visible != Some(false) {
        let st1 = match n.absolute_bounding_box {
            Some(b) => node_step(n, b, ox, oy, st),
            None => st,
        };
        match n.children {
            Some(c) => lemma_walk_list_keeps_assets(c, c.len() as int, ox, oy, st1),
            None => {},
        }
    }
}

/// The walk over a list keeps an asset context when it starts with one.
pub proof fn lemma_walk_list_keeps_assets(cs: Seq<FigmaNodeView>, k: int, ox: Fixed, oy: Fixed, st: WalkState)
    ensures
        (walk_list(cs, k, ox, oy, st).assets is Some) == (st.assets is Some),
    decreases cs, k,
{
    if 0 < k <= cs.len() {
        lemma_walk_list_keeps_assets(cs, k - 1, ox, oy, st);
        lemma_walk_keeps_assets(cs[k - 1], ox, oy, walk_list(cs, k - 1, ox, oy, st));
    }
}


// ---------------------------------------------------------------------------
// Laws

/// Every node is classified as `text`, `image`, `button`, `container` or `view`.
pub proof fn lemma_classify_closed(t: Seq<char>, has_text: bool)
    ensures
        classify_type(t, has_text) == "text"@ || classify_type(t, has_text) == "image"@
            || classify_type(t, has_text) == "button"@ || classify_type(t, has_text)
            == "container"@ || classify_type(t, has_text) == "view"@,
{
}

/// A colour text is `#` followed by six upper-case hexadecimal digits.
pub proof fn lemma_hex_color_shape(c: FigmaColor)
    ensures
        hex_color(c).len() == 7,
        hex_color(c)[0] == '#',
        forall|i: int|
            1 <= i < 7 ==> ('0' <= #[trigger] hex_color(c)[i] <= '9' || 'A' <= hex_color(c)[i] <= 'F'),
{
    let r = channel_byte_of(c.r as int);
    let g = channel_byte_of(c.g as int);
    let b = channel_byte_of(c.b as int);
    assert(hex_color(c) =~= seq!['#', hex_digit(r / 16), hex_digit(r % 16), hex_digit(g / 16), hex_digit(g % 16), hex_digit(b / 16), hex_digit(b % 16)]);
}

/// Whether `r` neither starts nor ends with `sep` and never holds `sep`
/// twice in a row.
pub open spec fn well_separated(r: Seq<char>, sep: char) -> bool {
    &&& r.len() > 0 ==> r[0] != sep && r.last() != sep
    &&& forall|i: int| 0 <= i < r.len() - 1 ==> !(#[trigger] r[i] == sep && r[i + 1] == sep)
}

proof fn lemma_split_parts_free(t: Seq<char>, sep: char)
    ensures
        forall|i: int, j: int|
            0 <= i < split_at_char(t, sep).len() && 0 <= j < split_at_char(t, sep)[i].len()
                ==> #[trigger] split_at_char(t, sep)[i][j] != sep,
    decreases t.len(),
{
    if t.len() > 0 {
        lemma_split_parts_free(t.drop_last(), sep);
        lemma_split_nonempty(t.drop_last(), sep);
        let p = split_at_char(t.drop_last(), sep);
        if t.last() != sep {
            let q = p.update(p.len() - 1, p.last().push(t.last()));
            assert forall|i: int, j: int| 0 <= i < q.len() && 0 <= j < q[i].len() implies #[trigger] q[i][j] != sep by {
                if i == p.len() - 1 && j == p.last().len() {
                } else if i == p.len() - 1 {
                    assert(q[i][j] == p[i][j]);
                } else {
                    assert(q[i] == p[i]);
                }
            }
        } else {
            let q = p.push(seq![]);
            assert forall|i: int, j: int| 0 <= i < q.len() && 0 <= j < q[i].len() implies #[trigger] q[i][j] != sep by {
                assert(i < p.len());
                assert(q[i] == p[i]);
            }
        }
    }
}

proof fn lemma_non_empty_parts_free(p: Seq<Seq<char>>, sep: char)
    requires
        forall|i: int, j: int| 0 <= i < p.len() && 0 <= j < p[i].len() ==> #[trigger] p[i][j] != sep,
    ensures
        forall|i: int, j: int|
            0 <= i < non_empty_parts(p).len() && 0 <= j < non_empty_parts(p)[i].len()
                ==> #[trigger] non_empty_parts(p)[i][j] != sep,
    decreases p.len(),
{
    if p.len() > 0 {
        let d = p.drop_last();
        assert forall|i: int, j: int| 0 <= i < d.len() && 0 <= j < d[i].len() implies #[trigger] d[i][j] != sep by {
            assert(d[i] == p[i]);
        }
        lemma_non_empty_parts_free(d, sep);
        let q = non_empty_parts(d);
        if p.last().len() > 0 {
            let r = q.push(p.last());
            assert forall|i: int, j: int| 0 <= i < r.len() && 0 <= j < r[i].len() implies #[trigger] r[i][j] != sep by {
                if i < q.len() {
                    assert(r[i] == q[i]);
                } else {
                    assert(r[i] == p[p.len() - 1]);
                }
            }
        }
    }
}

proof fn lemma_join_well_separated(f: Seq<Seq<char>>, sep: char)
    requires
        forall|i: int| 0 <= i < f.len() ==> #[trigger] f[i].len() > 0,
        forall|i: int, j: int| 0 <= i < f.len() && 0 <= j < f[i].len() ==> #[trigger] f[i][j] != sep,
    ensures
        well_separated(join_with(f, sep), sep),
        f.len() > 0 ==> join_with(f, sep).len() > 0,
    decreases f.len(),
{
    if f.len() == 1 {
        let r = join_with(f, sep);
        assert(r == f[0]);
        assert(f[0].len() > 0);
        assert(r[0] == f[0][0]);
        assert(r.last() == f[0][f[0].len() - 1]);
        assert forall|i: int| 0 <= i < r.len() - 1 implies !(#[trigger] r[i] == sep && r[i + 1] == sep) by {
            assert(f[0][i] != sep);
        }
    } else if f.len() > 1 {
        let d = f.drop_last();
        assert forall|i: int| 0 <= i < d.len() implies #[trigger] d[i].len() > 0 by {
            assert(d[i] == f[i]);
        }
        assert forall|i: int, j: int| 0 <= i < d.len() && 0 <= j < d[i].len() implies #[trigger] d[i][j] != sep by {
            assert(d[i] == f[i]);
        }
        lemma_join_well_separated(d, sep);
        let a = join_with(d, sep);
        let l = f.last();
        assert(l == f[f.len() - 1]);
        assert(l.len() > 0);
        let r = join_with(f, sep);
        assert(r == a.push(sep) + l);
        assert(r[0] == a[0]);
        assert(r.last() == l[l.len() - 1]);
        assert(l[l.len() - 1] != sep) by {
            assert(f[f.len() - 1][l.len() - 1] != sep);
        }
        assert forall|i: int| 0 <= i < r.len() - 1 implies !(#[trigger] r[i] == sep && r[i + 1] == sep) by {
            if i < a.len() - 1 {
                assert(r[i] == a[i]);
                assert(r[i + 1] == a[i + 1]);
            } else if i == a.len() - 1 {
                assert(r[i] == a.last());
            } else if i == a.len() {
                assert(r[i + 1] == l[0]);
                assert(f[f.len() - 1][0] != sep);
            } else {
                assert(r[i] == l[i - a.len() - 1]);
                assert(f[f.len() - 1][i - a.len() - 1] != sep);
            }
        }
    }
}

/// A slug neither starts nor ends with `_` and never holds two `_` in a row.
pub proof fn lemma_slug_shape(s: Seq<char>)
    ensures
        well_separated(slug_of(s), '_'),
{
    let t = s.map_values(|c: char| slug_char(c));
    lemma_split_parts_free(t, '_');
    lemma_non_empty_parts_free(split_at_char(t, '_'), '_');
    lemma_parts_non_empty(split_at_char(t, '_'));
    lemma_join_well_separated(non_empty_parts(split_at_char(t, '_')), '_');
}

/// Whether `after` is `before` followed by elements none of which is a
/// large text-less container.
pub open spec fn extends_kept(before: Seq<ElementView>, after: Seq<ElementView>) -> bool {
    &&& before.len() <= after.len()
    &&& after.subrange(0, before.len() as int) == before
    &&& forall|i: int|
        before.len() <= i < after.len() ==> !skipped(
            (#[trigger] after[i]).elem_type,
            after[i].content,
            after[i].bounds,
        )
}

proof fn lemma_extends_kept_trans(a: Seq<ElementView>, b: Seq<ElementView>, c: Seq<ElementView>)
    requires
        extends_kept(a, b),
        extends_kept(b, c),
    ensures
        extends_kept(a, c),
{
    assert(c.subrange(0, a.len() as int) =~= b.subrange(0, a.len() as int)) by {
        assert forall|i: int| 0 <= i < a.len() implies c.subrange(0, a.len() as int)[i] == b.subrange(0, a.len() as int)[i] by {
            assert(c.subrange(0, b.len() as int)[i] == b[i]);
        }
    }
    assert forall|i: int| a.len() <= i < c.len() implies !skipped((#[trigger] c[i]).elem_type, c[i].content, c[i].bounds) by {
        if i < b.len() {
            assert(c.subrange(0, b.len() as int)[i] == b[i]);
        }
    }
}

proof fn lemma_node_step_kept(n: FigmaNodeView, b: BoundingBox, ox: Fixed, oy: Fixed, st: WalkState)
    ensures
        extends_kept(st.elements, node_step(n, b, ox, oy, st).elements),
{
    let after = node_step(n, b, ox, oy, st).elements;
    assert(after.subrange(0, st.elements.len() as int) =~= st.elements);
}

/// The walk only appends to the elements found so far, and none of the
/// elements it appends is a large text-less container.
pub proof fn lemma_walk_extends(n: FigmaNodeView, ox: Fixed, oy: Fixed, st: WalkState)
    ensures
        extends_kept(st.elements, walk(n, ox, oy, st).elements),
    decreases n,
{
    if n.visible == Some(false) {
        assert(st.elements.subrange(0, st.elements.len() as int) =~= st.elements);
    } else {
        let st1 = match n.absolute_bounding_box {
            Some(b) => node_step(n, b, ox, oy, st),
            None => st,
        };
        match n.absolute_bounding_box {
            Some(b) => lemma_node_step_kept(n, b, ox, oy, st),
            None => {
                assert(st.elements.subrange(0, st.elements.len() as int) =~= st.elements);
            },
        }
        match n.children {
            Some(c) => {
                lemma_walk_list_extends(c, c.len() as int, ox, oy, st1);
                lemma_extends_kept_trans(st.elements, st1.elements, walk(n, ox, oy, st).elements);
            },
            None => {},
        }
    }
}

/// The walk over a list only appends elements that are kept.
pub proof fn lemma_walk_list_extends(cs: Seq<FigmaNodeView>, k: int, ox: Fixed, oy: Fixed, st: WalkState)
    ensures
        extends_kept(st.elements, walk_list(cs, k, ox, oy, st).elements),
    decreases cs, k,
{
    if 0 < k <= cs.len() {
        let mid = walk_list(cs, k - 1, ox, oy, st);
        lemma_walk_list_extends(cs, k - 1, ox, oy, st);
        lemma_walk_extends(cs[k - 1], ox, oy, mid);
        lemma_extends_kept_trans(st.elements, mid.elements, walk_list(cs, k, ox, oy, st).elements);
    } else {
        assert(st.elements.subrange(0, st.elements.len() as int) =~= st.elements);
    }
}

/// A hidden node adds no element and does no asset work, whatever its subtree.
pub proof fn lemma_hidden_adds_nothing(n: FigmaNodeView, ox: Fixed, oy: Fixed, st: WalkState)
    requires
        n.visible == Some(false),
    ensures
        walk(n, ox, oy, st) == st,
{
}

/// The element of a visible root with a bounding box, unless it is left out
/// as a large text-less container, is the first element of the schema and
/// sits at `(0, 0)`.
pub proof fn lemma_root_at_origin(n: FigmaNodeView, frame_box: Option<BoundingBox>, assets: Option<AssetsView>)
    requires
        n.visible != Some(false),
        n.absolute_bounding_box is Some,
        !skipped(
            classify_type(n.node_type, has_text(n)),
            n.characters,
            bounds_of(n.absolute_bounding_box->0, n.absolute_bounding_box->0.x, n.absolute_bounding_box->0.y),
        ),
    ensures
        extraction_of(n, frame_box, assets).elements.len() >= 1,
        extraction_of(n, frame_box, assets).elements[0].bounds.x == 0,
        extraction_of(n, frame_box, assets).elements[0].bounds.y == 0,
        extraction_of(n, frame_box, assets).elements[0].platform_id == Some(n.id),
{
    let b = n.absolute_bounding_box->0;
    let st0 = WalkState { elements: seq![], assets };
    let st1 = node_step(n, b, b.x, b.y, st0);
    assert(st1.elements.len() == 1);
    assert(round_units(0) == 0);
    assert(st1.elements[0].bounds.x == 0);
    match n.children {
        Some(c) => {
            lemma_walk_list_extends(c, c.len() as int, b.x, b.y, st1);
            let fin = walk_list(c, c.len() as int, b.x, b.y, st1).elements;
            assert(fin.subrange(0, 1)[0] == st1.elements[0]);
        },
        None => {},
    }
}

/// Every queued SVG document that names an element position names an
/// element that refers to it as `assets/<file name>`.
pub open spec fn svg_refs_ok(elements: Seq<ElementView>, assets: Option<AssetsView>) -> bool {
    match assets {
        None => true,
        Some(a) => forall|k: int|
            0 <= k < a.svg_files.len() ==> match (#[trigger] a.svg_files[k]).element_index {
                Some(i) => i < elements.len() && elements[i as int].image_path == Some(
                    "assets/"@ + a.svg_files[k].file_name,
                ),
                None => true,
            },
    }
}

proof fn lemma_node_assets_svg(a: AssetsView, n: FigmaNodeView, b: BoundingBox, index: Option<usize>)
    ensures
        ({
            let r = node_assets_of(Some(a), n, b, index);
            let name = element_id_of(n);
            &&& r.0 is Some
            &&& r.0->0.svg_files == a.svg_files || (r.0->0.svg_files == a.svg_files.push(
                SvgFileView { file_name: name + ".svg"@, content: svg_text(n, b), element_index: index },
            ) && r.1 == Some("assets/"@ + (name + ".svg"@)))
        }),
{
    let name = element_id_of(n);
    assert(("assets/"@ + name) + ".svg"@ =~= "assets/"@ + (name + ".svg"@));
}

proof fn lemma_node_step_svg_refs(n: FigmaNodeView, b: BoundingBox, ox: Fixed, oy: Fixed, st: WalkState)
    requires
        svg_refs_ok(st.elements, st.assets),
        node_step(n, b, ox, oy, st).elements.len() <= usize::MAX,
    ensures
        svg_refs_ok(node_step(n, b, ox, oy, st).elements, node_step(n, b, ox, oy, st).assets),
{
    let post = node_step(n, b, ox, oy, st);
    lemma_node_step_kept(n, b, ox, oy, st);
    let elem_type = classify_type(n.node_type, has_text(n));
    let skip = skipped(elem_type, n.characters, bounds_of(b, ox, oy));
    let index: Option<usize> = if skip {
        None
    } else {
        Some(st.elements.len() as usize)
    };
    let r = node_assets_of(st.assets, n, b, index);
    assert(post.assets == r.0);
    assert(post.elements == if skip {
        st.elements
    } else {
        st.elements.push(element_of(n, b, ox, oy, r.1))
    });
    match st.assets {
        None => {},
        Some(a) => {
            lemma_node_assets_svg(a, n, b, index);
            let pa = r.0->0;
            let name = element_id_of(n);
            assert forall|k: int| 0 <= k < pa.svg_files.len() implies match (#[trigger] pa.svg_files[k]).element_index {
                Some(i) => i < post.elements.len() && post.elements[i as int].image_path == Some(
                    "assets/"@ + pa.svg_files[k].file_name,
                ),
                None => true,
            } by {
                if k < a.svg_files.len() {
                    assert(pa.svg_files[k] == a.svg_files[k]);
                    match a.svg_files[k].element_index {
                        Some(i) => {
                            assert(post.elements.subrange(0, st.elements.len() as int)[i as int] == st.elements[i as int]);
                        },
                        None => {},
                    }
                } else {
                    assert(pa.svg_files[k].file_name == name + ".svg"@);
                    assert(pa.svg_files[k].element_index == index);
                    if !skip {
                        assert(post.elements[st.elements.len() as int] == element_of(n, b, ox, oy, r.1));
                    }
                }
            }
        },
    }
}

/// Throughout the walk, every queued SVG document that names an element
/// position names an element that refers to it, so a document that cannot
/// be written can be taken back from its element (for element lists that
/// fit in memory).
pub proof fn lemma_walk_svg_refs(n: FigmaNodeView, ox: Fixed, oy: Fixed, st: WalkState)
    requires
        svg_refs_ok(st.elements, st.assets),
        walk(n, ox, oy, st).elements.len() <= usize::MAX,
    ensures
        svg_refs_ok(walk(n, ox, oy, st).elements, walk(n, ox, oy, st).assets),
    decreases n,
{
    if n.visible != Some(false) {
        let st1 = match n.absolute_bounding_box {
            Some(b) => node_step(n, b, ox, oy, st),
            None => st,
        };
        match n.children {
            Some(c) => lemma_walk_list_extends(c, c.len() as int, ox, oy, st1),
            None => {},
        }
        match n.absolute_bounding_box {
            Some(b) => lemma_node_step_svg_refs(n, b, ox, oy, st),
            None => {},
        }
        match n.children {
            Some(c) => lemma_walk_list_svg_refs(c, c.len() as int, ox, oy, st1),
            None => {},
        }
    }
}

/// The walk over a list keeps the SVG documents and their elements matched.
pub proof fn lemma_walk_list_svg_refs(cs: Seq<FigmaNodeView>, k: int, ox: Fixed, oy: Fixed, st: WalkState)
    requires
        svg_refs_ok(st.elements, st.assets),
        walk_list(cs, k, ox, oy, st).elements.len() <= usize::MAX,
    ensures
        svg_refs_ok(walk_list(cs, k, ox, oy, st).elements, walk_list(cs, k, ox, oy, st).assets),
    decreases cs, k,
{
    if 0 < k <= cs.len() {
        lemma_walk_extends(cs[k - 1], ox, oy, walk_list(cs, k - 1, ox, oy, st));
        lemma_walk_list_svg_refs(cs, k - 1, ox, oy, st);
        lemma_walk_svg_refs(cs[k - 1], ox, oy, walk_list(cs, k - 1, ox, oy, st));
    }
}

/// The image fill a node records when the walk reaches it: a node with a
/// bounding box, not a vector, with a visible image paint records its id with
/// the hash of the first such paint.
pub open spec fn own_image_ref(n: FigmaNodeView) -> Seq<(Seq<char>, Seq<char>)> {
    if n.absolute_bounding_box is Some && !is_vector_type(n.node_type) && has_image_fill(n.fills) {
        match n.fills {
            Some(f) => match first_image_ref(f) {
                Some(h) => seq![(n.id, h)],
                None => seq![],
            },
            None => seq![],
        }
    } else {
        seq![]
    }
}

/// The image fills recorded by the walk over a node and its subtree, in
/// pre-order; hidden nodes and their subtrees record none.
pub open spec fn image_refs_of(n: FigmaNodeView) -> Seq<(Seq<char>, Seq<char>)>
    decreases n,
{
    if n.visible == Some(false) {
        seq![]
    } else {
        own_image_ref(n) + match n.children {
            Some(c) => list_image_refs(c, c.len() as int),
            None => seq![],
        }
    }
}

/// The image fills recorded by the walk over the first `k` trees of a list.
pub open spec fn list_image_refs(cs: Seq<FigmaNodeView>, k: int) -> Seq<(Seq<char>, Seq<char>)>
    decreases cs, k,
{
    if k <= 0 || k > cs.len() {
        seq![]
    } else {
        list_image_refs(cs, k - 1) + image_refs_of(cs[k - 1])
    }
}

/// With an asset context, the walk appends to the recorded image fills
/// those of the tree, in pre-order, whether or not the nodes' own elements
/// are left out.
pub proof fn lemma_walk_image_refs(n: FigmaNodeView, ox: Fixed, oy: Fixed, st: WalkState)
    requires
        st.assets is Some,
    ensures
        walk(n, ox, oy, st).assets is Some,
        walk(n, ox, oy, st).assets->0.image_refs == st.assets->0.image_refs + image_refs_of(n),
    decreases n,
{
    let a = st.assets->0;
    if n.visible == Some(false) {
        assert(a.image_refs + seq![] =~= a.image_refs);
    } else {
        let st1 = match n.absolute_bounding_box {
            Some(b) => node_step(n, b, ox, oy, st),
            None => st,
        };
        assert(st1.assets is Some && st1.assets->0.image_refs == a.image_refs + own_image_ref(n)) by {
            match n.absolute_bounding_box {
                Some(b) => {},
                None => {
                    assert(a.image_refs + seq![] =~= a.image_refs);
                },
            }
        }
        match n.children {
            Some(c) => {
                lemma_walk_list_image_refs(c, c.len() as int, ox, oy, st1);
                assert(a.image_refs + own_image_ref(n) + list_image_refs(c, c.len() as int) =~= a.image_refs
                    + (own_image_ref(n) + list_image_refs(c, c.len() as int)));
            },
            None => {
                assert(own_image_ref(n) + seq![] =~= own_image_ref(n));
            },
        }
    }
}

/// The walk over a list appends the image fills of its trees, in order.
pub proof fn lemma_walk_list_image_refs(cs: Seq<FigmaNodeView>, k: int, ox: Fixed, oy: Fixed, st: WalkState)
    requires
        st.assets is Some,
    ensures
        walk_list(cs, k, ox, oy, st).assets is Some,
        walk_list(cs, k, ox, oy, st).assets->0.image_refs == st.assets->0.image_refs + list_image_refs(cs, k),
    decreases cs, k,
{
    if 0 < k <= cs.len() {
        let mid = walk_list(cs, k - 1, ox, oy, st);
        lemma_walk_list_image_refs(cs, k - 1, ox, oy, st);
        lemma_walk_image_refs(cs[k - 1], ox, oy, mid);
        assert(st.assets->0.image_refs + list_image_refs(cs, k - 1) + image_refs_of(cs[k - 1]) =~= st.assets->0.image_refs
            + (list_image_refs(cs, k - 1) + image_refs_of(cs[k - 1])));
    } else {
        assert(st.assets->0.image_refs + seq![] =~= st.assets->0.image_refs);
    }
}

// ---------------------------------------------------------------------------
// A slug is its own slug

proof fn lemma_slug_char_fixed(c: char)
    ensures
        slug_char(slug_char(c)) == slug_char(c),
{
    if unicode_alphanumeric(c) && 'A' <= c <= 'Z' {
        let d = ascii_lower(c);
        assert('a' <= d <= 'z');
    }
}

proof fn lemma_split_chars(t: Seq<char>, sep: char)
    requires
        forall|i: int| 0 <= i < t.len() ==> slug_char(#[trigger] t[i]) == t[i],
    ensures
        forall|i: int, j: int|
            0 <= i < split_at_char(t, sep).len() && 0 <= j < split_at_char(t, sep)[i].len()
                ==> slug_char(#[trigger] split_at_char(t, sep)[i][j]) == split_at_char(t, sep)[i][j],
    decreases t.len(),
{
    if t.len() > 0 {
        let u = t.drop_last();
        assert forall|i: int| 0 <= i < u.len() implies slug_char(#[trigger] u[i]) == u[i] by {
            assert(u[i] == t[i]);
        }
        lemma_split_chars(u, sep);
        lemma_split_nonempty(u, sep);
        let p = split_at_char(u, sep);
        let q = split_at_char(t, sep);
        assert(slug_char(t[t.len() - 1]) == t[t.len() - 1]);
        assert forall|i: int, j: int| 0 <= i < q.len() && 0 <= j < q[i].len() implies slug_char(#[trigger] q[i][j]) == q[i][j] by {
            if t.last() == sep {
                assert(i < p.len());
                assert(q[i] == p[i]);
            } else if i == p.len() - 1 && j == p.last().len() {
            } else if i == p.len() - 1 {
                assert(q[i][j] == p[i][j]);
            } else {
                assert(q[i] == p[i]);
            }
        }
    }
}

proof fn lemma_non_empty_parts_chars(p: Seq<Seq<char>>)
    requires
        forall|i: int, j: int| 0 <= i < p.len() && 0 <= j < p[i].len() ==> slug_char(#[trigger] p[i][j]) == p[i][j],
    ensures
        forall|i: int, j: int|
            0 <= i < non_empty_parts(p).len() && 0 <= j < non_empty_parts(p)[i].len()
                ==> slug_char(#[trigger] non_empty_parts(p)[i][j]) == non_empty_parts(p)[i][j],
    decreases p.len(),
{
    if p.len() > 0 {
        let d = p.drop_last();
        assert forall|i: int, j: int| 0 <= i < d.len() && 0 <= j < d[i].len() implies slug_char(#[trigger] d[i][j]) == d[i][j] by {
            assert(d[i] == p[i]);
        }
        lemma_non_empty_parts_chars(d);
        let q = non_empty_parts(d);
        if p.last().len() > 0 {
            let r = q.push(p.last());
            assert forall|i: int, j: int| 0 <= i < r.len() && 0 <= j < r[i].len() implies slug_char(#[trigger] r[i][j]) == r[i][j] by {
                if i < q.len() {
                    assert(r[i] == q[i]);
                } else {
                    assert(r[i] == p[p.len() - 1]);
                }
            }
        }
    }
}

proof fn lemma_join_chars(f: Seq<Seq<char>>, sep: char)
    requires
        slug_char(sep) == sep,
        forall|i: int, j: int| 0 <= i < f.len() && 0 <= j < f[i].len() ==> slug_char(#[trigger] f[i][j]) == f[i][j],
    ensures
        forall|k: int| 0 <= k < join_with(f, sep).len() ==> slug_char(#[trigger] join_with(f, sep)[k]) == join_with(f, sep)[k],
    decreases f.len(),
{
    if f.len() == 1 {
        assert forall|k: int| 0 <= k < join_with(f, sep).len() implies slug_char(#[trigger] join_with(f, sep)[k]) == join_with(f, sep)[k] by {
            assert(f[0][k] == join_with(f, sep)[k]);
        }
    } else if f.len() > 1 {
        let d = f.drop_last();
        assert forall|i: int, j: int| 0 <= i < d.len() && 0 <= j < d[i].len() implies slug_char(#[trigger] d[i][j]) == d[i][j] by {
            assert(d[i] == f[i]);
        }
        lemma_join_chars(d, sep);
        let a = join_with(d, sep);
        let l = f.last();
        let r = join_with(f, sep);
        assert(r == a.push(sep) + l);
        assert forall|k: int| 0 <= k < r.len() implies slug_char(#[trigger] r[k]) == r[k] by {
            if k < a.len() {
                assert(r[k] == a[k]);
            } else if k == a.len() {
            } else {
                assert(r[k] == f[f.len() - 1][k - a.len() - 1]);
            }
        }
    }
}

proof fn lemma_split_append_free(u: Seq<char>, x: Seq<char>, sep: char)
    requires
        forall|i: int| 0 <= i < x.len() ==> #[trigger] x[i] != sep,
    ensures
        split_at_char(u + x, sep) == split_at_char(u, sep).update(
            split_at_char(u, sep).len() - 1,
            split_at_char(u, sep).last() + x,
        ),
    decreases x.len(),
{
    lemma_split_nonempty(u, sep);
    let p = split_at_char(u, sep);
    if x.len() == 0 {
        assert(u + x =~= u);
        assert(p.last() + x =~= p.last());
        assert(p.update(p.len() - 1, p.last()) =~= p);
    } else {
        let y = x.drop_last();
        assert forall|i: int| 0 <= i < y.len() implies #[trigger] y[i] != sep by {
            assert(y[i] == x[i]);
        }
        lemma_split_append_free(u, y, sep);
        assert((u + x).drop_last() =~= u + y);
        assert((u + x).last() == x.last());
        assert(x.last() != sep);
        let q = p.update(p.len() - 1, p.last() + y);
        assert(split_at_char(u + x, sep) == q.update(q.len() - 1, q.last().push(x.last())));
        assert((p.last() + y).push(x.last()) =~= p.last() + x);
        assert(q.update(q.len() - 1, q.last().push(x.last())) =~= p.update(p.len() - 1, p.last() + x));
    }
}

proof fn lemma_split_join(f: Seq<Seq<char>>, sep: char)
    requires
        f.len() > 0,
        forall|i: int, j: int| 0 <= i < f.len() && 0 <= j < f[i].len() ==> #[trigger] f[i][j] != sep,
    ensures
        split_at_char(join_with(f, sep), sep) == f,
    decreases f.len(),
{
    let e = Seq::<char>::empty();
    assert forall|i: int| 0 <= i < f[0].len() implies #[trigger] f[0][i] != sep by {
        assert(f[0][i] != sep);
    }
    if f.len() == 1 {
        lemma_split_append_free(e, f[0], sep);
        assert(e + f[0] =~= f[0]);
        assert(split_at_char(e, sep) == seq![e]);
        assert(seq![e].update(0, e + f[0]) =~= f);
    } else {
        let d = f.drop_last();
        assert forall|i: int, j: int| 0 <= i < d.len() && 0 <= j < d[i].len() implies #[trigger] d[i][j] != sep by {
            assert(d[i] == f[i]);
        }
        lemma_split_join(d, sep);
        let a = join_with(d, sep);
        let l = f.last();
        assert forall|i: int| 0 <= i < l.len() implies #[trigger] l[i] != sep by {
            assert(f[f.len() - 1][i] != sep);
        }
        assert(a.push(sep).drop_last() =~= a);
        assert(split_at_char(a.push(sep), sep) == d.push(e));
        lemma_split_append_free(a.push(sep), l, sep);
        assert(d.push(e).update(d.len() as int, e + l) =~= f);
        assert(e + l =~= l);
    }
}

proof fn lemma_non_empty_parts_keep(f: Seq<Seq<char>>)
    requires
        forall|i: int| 0 <= i < f.len() ==> #[trigger] f[i].len() > 0,
    ensures
        non_empty_parts(f) == f,
    decreases f.len(),
{
    if f.len() > 0 {
        let d = f.drop_last();
        assert forall|i: int| 0 <= i < d.len() implies #[trigger] d[i].len() > 0 by {
            assert(d[i] == f[i]);
        }
        lemma_non_empty_parts_keep(d);
        assert(f.last().len() > 0);
        assert(d.push(f.last()) =~= f);
    }
}

/// A slug is its own slug.
pub proof fn lemma_slug_idempotent(s: Seq<char>)
    ensures
        slug_of(slug_of(s)) == slug_of(s),
{
    let m = s.map_values(|c: char| slug_char(c));
    assert forall|i: int| 0 <= i < m.len() implies slug_char(#[trigger] m[i]) == m[i] by {
        lemma_slug_char_fixed(s[i]);
    }
    let parts = split_at_char(m, '_');
    let f = non_empty_parts(parts);
    let t = join_with(f, '_');
    lemma_split_chars(m, '_');
    lemma_non_empty_parts_chars(parts);
    assert(slug_char('_') == '_');
    lemma_join_chars(f, '_');
    let m2 = t.map_values(|c: char| slug_char(c));
    assert(m2 =~= t);
    lemma_split_parts_free(m, '_');
    lemma_non_empty_parts_free(parts, '_');
    lemma_parts_non_empty(parts);
    if f.len() == 0 {
        assert(t.len() == 0);
        assert(split_at_char(t, '_') == seq![Seq::<char>::empty()]);
        let one = seq![Seq::<char>::empty()];
        assert(one.drop_last() =~= Seq::<Seq<char>>::empty());
        assert(one.last().len() == 0);
        assert(non_empty_parts(Seq::<Seq<char>>::empty()) =~= Seq::<Seq<char>>::empty());
        assert(non_empty_parts(one) == non_empty_parts(one.drop_last()));
        assert(non_empty_parts(one) =~= Seq::<Seq<char>>::empty());
    } else {
        lemma_split_join(f, '_');
        lemma_non_empty_parts_keep(f);
    }
}

// ---------------------------------------------------------------------------
// The shape of the appended elements

/// Every element from position `from` on is flat (holds no children) and,
/// when `no_assets`, refers to no asset file.
pub open spec fn flat_from(els: Seq<ElementView>, from: int, no_assets: bool) -> bool {
    forall|i: int|
        from <= i < els.len() ==> (#[trigger] els[i]).children is None && (no_assets ==> els[i].image_path is None)
}

proof fn lemma_flat_trans(a: Seq<ElementView>, b: Seq<ElementView>, c: Seq<ElementView>, no_assets: bool)
    requires
        extends_kept(a, b),
        extends_kept(b, c),
        flat_from(b, a.len() as int, no_assets),
        flat_from(c, b.len() as int, no_assets),
    ensures
        flat_from(c, a.len() as int, no_assets),
{
    assert forall|i: int| a.len() <= i < c.len() implies (#[trigger] c[i]).children is None && (no_assets ==> c[i].image_path
        is None) by {
        if i < b.len() {
            assert(c.subrange(0, b.len() as int)[i] == b[i]);
        }
    }
}

/// The walk appends flat elements only (the schema is a flat list), and
/// without an asset context none of them refers to an asset file.
pub proof fn lemma_walk_flat(n: FigmaNodeView, ox: Fixed, oy: Fixed, st: WalkState)
    ensures
        flat_from(walk(n, ox, oy, st).elements, st.elements.len() as int, st.assets is None),
        st.assets is None ==> walk(n, ox, oy, st).assets is None,
    decreases n,
{
    lemma_walk_keeps_assets(n, ox, oy, st);
    if n.visible != Some(false) {
        let st1 = match n.absolute_bounding_box {
            Some(b) => node_step(n, b, ox, oy, st),
            None => st,
        };
        match n.absolute_bounding_box {
            Some(b) => {
                lemma_node_step_kept(n, b, ox, oy, st);
                lemma_walk_keeps_assets(n, ox, oy, st);
            },
            None => {
                assert(st.elements.subrange(0, st.elements.len() as int) =~= st.elements);
            },
        }
        assert(flat_from(st1.elements, st.elements.len() as int, st.assets is None));
        assert((st1.assets is None) == (st.assets is None));
        match n.children {
            Some(c) => {
                lemma_walk_list_flat(c, c.len() as int, ox, oy, st1);
                lemma_walk_list_extends(c, c.len() as int, ox, oy, st1);
                lemma_flat_trans(st.elements, st1.elements, walk(n, ox, oy, st).elements, st.assets is None);
            },
            None => {},
        }
    }
}

/// The walk over a list appends flat elements only, with no asset file when
/// there is no asset context.
pub proof fn lemma_walk_list_flat(cs: Seq<FigmaNodeView>, k: int, ox: Fixed, oy: Fixed, st: WalkState)
    ensures
        flat_from(walk_list(cs, k, ox, oy, st).elements, st.elements.len() as int, st.assets is None),
        st.assets is None ==> walk_list(cs, k, ox, oy, st).assets is None,
    decreases cs, k,
{
    if 0 < k <= cs.len() {
        let mid = walk_list(cs, k - 1, ox, oy, st);
        lemma_walk_list_flat(cs, k - 1, ox, oy, st);
        lemma_walk_list_extends(cs, k - 1, ox, oy, st);
        lemma_walk_list_keeps_assets(cs, k - 1, ox, oy, st);
        lemma_walk_flat(cs[k - 1], ox, oy, mid);
        lemma_walk_extends(cs[k - 1], ox, oy, mid);
        lemma_flat_trans(st.elements, mid.elements, walk_list(cs, k, ox, oy, st).elements, st.assets is None);
    }
}

/// A schema made without asset context (as `extract_schema` makes it) is a
/// flat list of elements none of which refers to an asset file.
pub proof fn lemma_schema_without_assets(n: FigmaNodeView, frame_box: Option<BoundingBox>, secs: u64)
    ensures
        forall|i: int|
            0 <= i < schema_of(n, frame_box, None, secs).elements.len() ==> (#[trigger] schema_of(
                n,
                frame_box,
                None,
                secs,
            ).elements[i]).children is None && schema_of(n, frame_box, None, secs).elements[i].image_path is None,
{
    let o = frame_origin(n, frame_box);
    lemma_walk_flat(n, o.0, o.1, WalkState { elements: seq![], assets: None });
}

/// The path an element records for an image fill names the file its render
/// is saved as: the fill is recorded under the node id, the element refers
/// to `assets/<node id>.png`, and the render fetch saves the render of each
/// recorded node id as `<node id>.png` in the asset directory.
pub proof fn lemma_image_path_names_render(
    a: AssetsView,
    node_id: Seq<char>,
    fills: Option<Seq<PaintView>>,
    ids: Seq<Seq<char>>,
    listed: Seq<(Seq<char>, Option<Seq<char>>)>,
    k: int,
    count: usize,
)
    requires
        ids.len() <= usize::MAX,
        0 <= k <= ids.len(),
    ensures
        ({
            let r = record_image_ref_of(a, node_id, fills);
            r.1 is Some ==> {
                &&& r.1 == Some("assets/"@ + crate::remote::image_file_name_of(node_id))
                &&& r.0.image_refs.len() == a.image_refs.len() + 1
                &&& r.0.image_refs.last().0 == node_id
            }
        }),
        ({
            let d = crate::remote::download_from(ids, listed, k, count);
            d.0 matches crate::remote::ImagePhaseView::AwaitSave(j) ==> d.1 == (crate::remote::ImageActionView::Download {
                url: crate::remote::listed_url(listed, ids[j as int])->0,
                file_name: crate::remote::image_file_name_of(ids[j as int]),
            })
        }),
{
    assert(("assets/"@ + node_id) + ".png"@ =~= "assets/"@ + (node_id + ".png"@));
    crate::remote::lemma_next_download_range(ids, listed, k);
}

// ---------------------------------------------------------------------------
// What each node contributes

/// Whether a paint shows a colour: it is not hidden and has a colour.
pub open spec fn shows_colour(x: PaintView) -> bool {
    x.visible != Some(false) && x.color is Some
}

/// The colour of a paint list is that of its first paint that is not hidden
/// (a paint marked `visible: true` or not marked at all counts) and has a
/// colour, written `#RRGGBB`; a list where no paint is both gives none.
pub proof fn lemma_first_paint_color(p: Seq<PaintView>)
    ensures
        forall|i: int|
            0 <= i < p.len() && shows_colour(#[trigger] p[i]) && (forall|j: int| 0 <= j < i ==> !shows_colour(p[j]))
                ==> first_paint_color(p) == Some(hex_color(p[i].color->0)),
        (forall|i: int| 0 <= i < p.len() ==> !shows_colour(#[trigger] p[i])) ==> first_paint_color(p) is None,
    decreases p.len(),
{
    if p.len() > 0 {
        let q = p.drop_first();
        lemma_first_paint_color(q);
        assert forall|i: int|
            0 <= i < p.len() && shows_colour(#[trigger] p[i]) && (forall|j: int| 0 <= j < i ==> !shows_colour(p[j]))
                implies first_paint_color(p) == Some(hex_color(p[i].color->0)) by {
            if i > 0 {
                assert(!shows_colour(p[0]));
                assert(q[i - 1] == p[i]);
                assert forall|j: int| 0 <= j < i - 1 implies !shows_colour(q[j]) by {
                    assert(q[j] == p[j + 1]);
                }
            }
        }
        if forall|i: int| 0 <= i < p.len() ==> !shows_colour(#[trigger] p[i]) {
            assert(!shows_colour(p[0]));
            assert forall|i: int| 0 <= i < q.len() implies !shows_colour(#[trigger] q[i]) by {
                assert(q[i] == p[i + 1]);
            }
        }
    }
}

/// A node with a bounding box adds one element at the end, unless it is a
/// container without text of its own that is over 300 points both wide and
/// high (after rounding); such a node adds none. The element has the node's
/// slug as id, its id as platform id, its own text, its type, and its
/// rounded bounds relative to the origin.
pub proof fn lemma_node_step_element(n: FigmaNodeView, b: BoundingBox, ox: Fixed, oy: Fixed, st: WalkState)
    ensures
        ({
            let post = node_step(n, b, ox, oy, st);
            let w = clamp_i32(round_units(b.width as int));
            let h = clamp_i32(round_units(b.height as int));
            let t = classify_type(n.node_type, has_text(n));
            let left_out = t == "container"@ && n.characters is None && w > 300 && h > 300;
            &&& left_out ==> post.elements == st.elements
            &&& !left_out ==> {
                &&& post.elements.len() == st.elements.len() + 1
                &&& post.elements.drop_last() == st.elements
                &&& post.elements.last().id == element_id_of(n)
                &&& post.elements.last().platform_id == Some(n.id)
                &&& post.elements.last().content == n.characters
                &&& post.elements.last().elem_type == t
                &&& post.elements.last().bounds.x == clamp_i32(round_units(b.x - ox))
                &&& post.elements.last().bounds.y == clamp_i32(round_units(b.y - oy))
                &&& post.elements.last().bounds.w == w
                &&& post.elements.last().bounds.h == h
            }
        }),
{
    let post = node_step(n, b, ox, oy, st);
    if post.elements.len() == st.elements.len() + 1 {
        assert(post.elements.drop_last() =~= st.elements);
    }
}

/// Whether `s` ends with `suffix`.
pub open spec fn ends_with(s: Seq<char>, suffix: Seq<char>) -> bool {
    suffix.len() <= s.len() && s.subrange(s.len() - suffix.len(), s.len() as int) == suffix
}

/// The SVG document of a node with stroke outlines ends with its last one,
/// unfilled and stroked with the node's stroke colour: the first colour its
/// strokes show, else black.
pub proof fn lemma_svg_stroke_colour(n: FigmaNodeView, b: BoundingBox)
    requires
        n.stroke_geometry is Some,
        n.stroke_geometry->0.len() > 0,
    ensures
        ends_with(
            svg_text(n, b),
            "<path d=\""@ + n.stroke_geometry->0.last().path + "\" fill=\"none\" stroke=\""@ + match fill_color_of(
                n.strokes,
            ) {
                Some(c) => c,
                None => "#000000"@,
            } + "\"/>"@ + "</svg>"@,
        ),
{
    let ps = n.stroke_geometry->0;
    let c = outline_color(n.strokes);
    let last = "<path d=\""@ + ps.last().path + "\" fill=\"none\" stroke=\""@ + c + "\"/>"@;
    let strokes = stroke_path_elements(ps, c);
    assert(strokes == stroke_path_elements(ps.drop_last(), c) + last);
    let w = fixed_text_of(b.width as int);
    let h = fixed_text_of(b.height as int);
    let fills = match n.fill_geometry {
        Some(qs) => fill_path_elements(qs, outline_color(n.fills)),
        None => seq![],
    };
    let head = "<svg xmlns=\"http://www.w3.org/2000/svg\" width=\""@ + w + "\" height=\""@ + h
        + "\" viewBox=\"0 0 "@ + w + " "@ + h + "\">"@ + fills;
    let suffix = last + "</svg>"@;
    assert(svg_text(n, b) == head + strokes + "</svg>"@);
    assert(head + strokes + "</svg>"@ =~= (head + stroke_path_elements(ps.drop_last(), c)) + suffix);
    lemma_ends_with_concat(head + stroke_path_elements(ps.drop_last(), c), suffix);
}

proof fn lemma_ends_with_concat(s: Seq<char>, t: Seq<char>)
    ensures
        ends_with(s + t, t),
{
    assert((s + t).subrange(s.len() as int, (s + t).len() as int) =~= t);
}

/// The SVG document of a node with fill outlines and no stroke outlines ends
/// with its last fill outline, filled with the node's fill colour (the first
/// colour its fills show, else black) and using the outline's winding rule
/// lower-cased (`nonzero` without one).
pub proof fn lemma_svg_fill_colour(n: FigmaNodeView, b: BoundingBox)
    requires
        n.stroke_geometry is None || n.stroke_geometry->0.len() == 0,
        n.fill_geometry is Some,
        n.fill_geometry->0.len() > 0,
    ensures
        ends_with(
            svg_text(n, b),
            "<path d=\""@ + n.fill_geometry->0.last().path + "\" fill=\""@ + match fill_color_of(n.fills) {
                Some(c) => c,
                None => "#000000"@,
            } + "\" fill-rule=\""@ + unicode_lowercase(
                match n.fill_geometry->0.last().winding_rule {
                    Some(r) => r,
                    None => "nonzero"@,
                },
            ) + "\"/>"@ + "</svg>"@,
        ),
{
    let ps = n.fill_geometry->0;
    let c = outline_color(n.fills);
    let rule = match ps.last().winding_rule {
        Some(r) => r,
        None => "nonzero"@,
    };
    let last = "<path d=\""@ + ps.last().path + "\" fill=\""@ + c + "\" fill-rule=\""@ + unicode_lowercase(rule) + "\"/>"@;
    assert(fill_path_elements(ps, c) == fill_path_elements(ps.drop_last(), c) + last);
    let strokes = match n.stroke_geometry {
        Some(qs) => stroke_path_elements(qs, outline_color(n.strokes)),
        None => seq![],
    };
    assert(strokes =~= Seq::<char>::empty());
    let doc = svg_text(n, b);
    let suffix = last + "</svg>"@;
    assert(doc.subrange(doc.len() - suffix.len(), doc.len() as int) =~= suffix);
}

} // verus!
