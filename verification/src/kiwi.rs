use vstd::prelude::*;
use std::collections::HashMap;
use crate::figma::{
    clone_text, BoundingBox, FigmaColor, FigmaNode, FigmaNodeView, Paint, PaintView, TypeStyle,
    TypeStyleView, VectorPath, VectorPathView, nodes_view,
};
use crate::fixed::{add_sat, clamp_i64, Fixed};
use crate::schema::opt_text;
use crate::text::{i64_text, int_text, owned, text_eq};

verus! {

broadcast use vstd::std_specs::hash::group_hash_axioms;

/// A scenegraph capture: a flat list of node records.
pub struct KiwiDocument {
    pub doc_type: Option<String>,
    pub node_changes: Vec<KiwiNode>,
}

/// One node record of a scenegraph capture.
pub struct KiwiNode {
    pub guid: KiwiGuid,
    pub node_type: Option<String>,
    pub name: Option<String>,
    pub visible: Option<bool>,
    pub opacity: Option<Fixed>,
    pub transform: Option<KiwiTransform>,
    pub size: Option<KiwiSize>,
    pub parent_index: Option<KiwiParentIndex>,
    pub fill_paints: Option<Vec<KiwiFill>>,
    pub stroke_paints: Option<Vec<KiwiFill>>,
    pub font_name: Option<KiwiFontName>,
    pub font_size: Option<Fixed>,
    pub text_data: Option<KiwiTextData>,
    pub derived_text_data: Option<KiwiDerivedTextData>,
    pub corner_radius: Option<Fixed>,
    pub padding_left: Option<Fixed>,
    pub padding_right: Option<Fixed>,
    pub padding_top: Option<Fixed>,
    pub padding_bottom: Option<Fixed>,
    pub fill_geometry: Option<Vec<KiwiVectorPath>>,
    pub stroke_geometry: Option<Vec<KiwiVectorPath>>,
}

/// Identity of a node: session and local id.
#[derive(Clone, Copy, Debug, PartialEq, Eq, Structural, Hash)]
pub struct KiwiGuid {
    pub session_id: i64,
    pub local_id: i64,
}

/// Affine transform of a node relative to its parent; `m02` and `m12` are
/// the translation.
#[derive(Clone, Copy, Debug, PartialEq, Eq, Structural)]
pub struct KiwiTransform {
    pub m00: Fixed,
    pub m01: Fixed,
    pub m02: Fixed,
    pub m10: Fixed,
    pub m11: Fixed,
    pub m12: Fixed,
}

/// Width (`x`) and height (`y`) of a node.
#[derive(Clone, Copy, Debug, PartialEq, Eq, Structural)]
pub struct KiwiSize {
    pub x: Fixed,
    pub y: Fixed,
}

/// Reference from a node to its parent.
pub struct KiwiParentIndex {
    pub guid: KiwiGuid,
    pub position: Option<String>,
}

/// One fill or stroke paint of a node record.
pub struct KiwiFill {
    pub fill_type: Option<String>,
    pub color: Option<FigmaColor>,
    pub opacity: Option<Fixed>,
    pub visible: Option<bool>,
    pub image_ref: Option<String>,
}

/// A font: family, style name and PostScript name.
pub struct KiwiFontName {
    pub family: String,
    pub style: Option<String>,
    pub postscript: Option<String>,
}

/// Text content of a node record.
pub struct KiwiTextData {
    pub characters: Option<String>,
}

/// Derived text layout data of a node record.
pub struct KiwiDerivedTextData {
    pub font_meta_data: Option<Vec<KiwiFontMeta>>,
    pub truncation_start_index: Option<i64>,
}

/// Font metadata of laid-out text.
pub struct KiwiFontMeta {
    pub key: Option<KiwiFontName>,
    pub font_weight: Option<Fixed>,
}

/// One outline of a node record; records without path data are dropped.
pub struct KiwiVectorPath {
    pub path: Option<String>,
    pub winding_rule: Option<String>,
}

/// Absolute position and size computed for a node record.
#[derive(Clone, Copy, Debug, PartialEq, Eq, Structural)]
pub struct AbsolutePosition {
    pub x: Fixed,
    pub y: Fixed,
    pub w: Fixed,
    pub h: Fixed,
}

/// The node id text of a guid: `<sessionID>:<localID>`.
pub open spec fn guid_text(g: KiwiGuid) -> Seq<char> {
    int_text(g.session_id as int) + seq![':'] + int_text(g.local_id as int)
}

impl KiwiGuid {
    /// The node id text `<sessionID>:<localID>`.
    pub fn to_string(&self) -> (r: String)
        ensures
            r@ == guid_text(*self),
    {
        let mut s = i64_text(self.session_id);
        s.push(':');
        let l = i64_text(self.local_id);
        s.push_str(l.as_str());
        s
    }
}

/// The font weight a style name stands for: `Thin`/`Hairline` 100,
/// `ExtraLight`/`UltraLight` 200, `Light` 300, `Regular`/`Normal` 400,
/// `Medium` 500, `SemiBold`/`DemiBold` 600, `Bold` 700,
/// `ExtraBold`/`UltraBold` 800, `Black`/`Heavy` 900; none for other names.
pub open spec fn style_weight(style: Option<Seq<char>>) -> Option<Fixed> {
    match style {
        None => None,
        Some(s) => if s == "Thin"@ || s == "Hairline"@ {
            Some(100000000)
        } else if s == "ExtraLight"@ || s == "UltraLight"@ {
            Some(200000000)
        } else if s == "Light"@ {
            Some(300000000)
        } else if s == "Regular"@ || s == "Normal"@ {
            Some(400000000)
        } else if s == "Medium"@ {
            Some(500000000)
        } else if s == "SemiBold"@ || s == "DemiBold"@ {
            Some(600000000)
        } else if s == "Bold"@ {
            Some(700000000)
        } else if s == "ExtraBold"@ || s == "UltraBold"@ {
            Some(800000000)
        } else if s == "Black"@ || s == "Heavy"@ {
            Some(900000000)
        } else {
            None
        },
    }
}

/// The font weight for a style name (see `style_weight`).
pub fn style_to_weight(style: Option<&str>) -> (r: Option<Fixed>)
    ensures
        r == style_weight(
            match style {
                Some(s) => Some(s@),
                None => None,
            },
        ),
{
    let s = match style {
        Some(s) => s,
        None => {
            return None;
        },
    };
    if text_eq(s, "Thin") || text_eq(s, "Hairline") {
        Some(100000000)
    } else if text_eq(s, "ExtraLight") || text_eq(s, "UltraLight") {
        Some(200000000)
    } else if text_eq(s, "Light") {
        Some(300000000)
    } else if text_eq(s, "Regular") || text_eq(s, "Normal") {
        Some(400000000)
    } else if text_eq(s, "Medium") {
        Some(500000000)
    } else if text_eq(s, "SemiBold") || text_eq(s, "DemiBold") {
        Some(600000000)
    } else if text_eq(s, "Bold") {
        Some(700000000)
    } else if text_eq(s, "ExtraBold") || text_eq(s, "UltraBold") {
        Some(800000000)
    } else if text_eq(s, "Black") || text_eq(s, "Heavy") {
        Some(900000000)
    } else {
        None
    }
}

// ---------------------------------------------------------------------------
// Tree structure of a capture

/// The guid of a record's parent, if it names one.
pub open spec fn parent_of(n: KiwiNode) -> Option<KiwiGuid> {
    match n.parent_index {
        Some(p) => Some(p.guid),
        None => None,
    }
}

/// Indices, in increasing order, of the first `k` records whose parent is `g`.
pub open spec fn children_upto(nodes: Seq<KiwiNode>, g: KiwiGuid, k: int) -> Seq<usize>
    decreases k,
{
    if k <= 0 || k > nodes.len() {
        seq![]
    } else if parent_of(nodes[k - 1]) == Some(g) {
        children_upto(nodes, g, k - 1).push((k - 1) as usize)
    } else {
        children_upto(nodes, g, k - 1)
    }
}

/// Indices, in increasing order, of the records whose parent is `g`.
pub open spec fn children_of(nodes: Seq<KiwiNode>, g: KiwiGuid) -> Seq<usize> {
    children_upto(nodes, g, nodes.len() as int)
}

/// The index of the first record without a parent, else 0.
pub open spec fn root_index(nodes: Seq<KiwiNode>) -> int {
    if exists|i: int| 0 <= i < nodes.len() && (#[trigger] nodes[i]).parent_index is None {
        choose|i: int|
            0 <= i < nodes.len() && (#[trigger] nodes[i]).parent_index is None && forall|j: int|
                0 <= j < i ==> (#[trigger] nodes[j]).parent_index is Some
    } else {
        0
    }
}

/// The walk from record `idx` down through children reaches no more than
/// `fuel` records on any path.
pub open spec fn walk_within(nodes: Seq<KiwiNode>, idx: int, fuel: nat) -> bool
    decreases fuel,
{
    fuel > 0 && forall|k: int|
        0 <= k < children_of(nodes, nodes[idx].guid).len() ==> walk_within(
            nodes,
            #[trigger] children_of(nodes, nodes[idx].guid)[k] as int,
            (fuel - 1) as nat,
        )
}

/// The translation of a record relative to its parent (`(0, 0)` without a transform).
pub open spec fn translation_of(n: KiwiNode) -> (Fixed, Fixed) {
    match n.transform {
        Some(t) => (t.m02, t.m12),
        None => (0, 0),
    }
}

/// The size of a record (`(0, 0)` without one).
pub open spec fn size_of_node(n: KiwiNode) -> (Fixed, Fixed) {
    match n.size {
        Some(s) => (s.x, s.y),
        None => (0, 0),
    }
}

/// Absolute positions after placing record `idx` at its parent's position
/// `(px, py)` plus its own translation, then its children below it in
/// order. A record reached twice keeps the position of the last visit.
pub open spec fn place(
    nodes: Seq<KiwiNode>,
    idx: int,
    px: Fixed,
    py: Fixed,
    pos: Seq<Option<AbsolutePosition>>,
    fuel: nat,
) -> Seq<Option<AbsolutePosition>>
    decreases fuel, 0int, 0int,
{
    if fuel == 0 {
        pos
    } else {
        let t = translation_of(nodes[idx]);
        let z = size_of_node(nodes[idx]);
        let ax = clamp_i64(px + t.0) as Fixed;
        let ay = clamp_i64(py + t.1) as Fixed;
        let pos1 = pos.update(idx, Some(AbsolutePosition { x: ax, y: ay, w: z.0, h: z.1 }));
        let cs = children_of(nodes, nodes[idx].guid);
        place_list(nodes, cs, cs.len() as int, ax, ay, pos1, (fuel - 1) as nat)
    }
}

/// Absolute positions after placing the first `k` of the records `cs`
/// below a parent at `(px, py)`, in order.
pub open spec fn place_list(
    nodes: Seq<KiwiNode>,
    cs: Seq<usize>,
    k: int,
    px: Fixed,
    py: Fixed,
    pos: Seq<Option<AbsolutePosition>>,
    fuel: nat,
) -> Seq<Option<AbsolutePosition>>
    decreases fuel, 1int, k,
{
    if k <= 0 || k > cs.len() {
        pos
    } else {
        place(nodes, cs[k - 1] as int, px, py, place_list(nodes, cs, k - 1, px, py, pos, fuel), fuel)
    }
}

/// A record's paint as a design paint.
pub open spec fn paint_from(f: KiwiFill) -> PaintView {
    PaintView {
        paint_type: opt_text(f.fill_type),
        color: f.color,
        visible: f.visible,
        opacity: f.opacity,
        image_ref: opt_text(f.image_ref),
    }
}

/// A record's paint list as design paints.
pub open spec fn paints_from(o: Option<Vec<KiwiFill>>) -> Option<Seq<PaintView>> {
    match o {
        Some(v) => Some(v@.map_values(|f: KiwiFill| paint_from(f))),
        None => None,
    }
}

/// The outlines of a record that carry path data, in order.
pub open spec fn present_paths(s: Seq<KiwiVectorPath>) -> Seq<VectorPathView>
    decreases s.len(),
{
    if s.len() == 0 {
        seq![]
    } else {
        let rest = present_paths(s.drop_last());
        match s.last().path {
            Some(p) => rest.push(VectorPathView { path: p@, winding_rule: opt_text(s.last().winding_rule) }),
            None => rest,
        }
    }
}

/// A record's outline list as design outlines.
pub open spec fn paths_from(o: Option<Vec<KiwiVectorPath>>) -> Option<Seq<VectorPathView>> {
    match o {
        Some(v) => Some(present_paths(v@)),
        None => None,
    }
}

/// The text of a record.
pub open spec fn characters_from(n: KiwiNode) -> Option<Seq<char>> {
    match n.text_data {
        Some(t) => opt_text(t.characters),
        None => None,
    }
}

/// The weight of the first font of a record's laid-out text.
pub open spec fn laid_out_weight(n: KiwiNode) -> Option<Fixed> {
    match n.derived_text_data {
        Some(d) => match d.font_meta_data {
            Some(m) => if m@.len() > 0 {
                m@[0].font_weight
            } else {
                None
            },
            None => None,
        },
        None => None,
    }
}

/// A record's text style: present when it names a font; the family, the
/// laid-out weight or else the weight of the style name, and the size.
pub open spec fn style_from(n: KiwiNode) -> Option<TypeStyleView> {
    match n.font_name {
        Some(f) => Some(
            TypeStyleView {
                font_family: Some(f.family@),
                font_weight: match laid_out_weight(n) {
                    Some(w) => Some(w),
                    None => style_weight(opt_text(f.style)),
                },
                font_size: n.font_size,
                letter_spacing: None,
                line_height_px: None,
            },
        ),
        None => None,
    }
}

/// The design node built from record `idx` and, below it, from its children.
pub open spec fn build(
    nodes: Seq<KiwiNode>,
    pos: Seq<Option<AbsolutePosition>>,
    idx: int,
    fuel: nat,
) -> FigmaNodeView
    decreases fuel,
{
    let n = nodes[idx];
    let cs = children_of(nodes, n.guid);
    FigmaNodeView {
        id: guid_text(n.guid),
        name: match n.name {
            Some(s) => s@,
            None => seq![],
        },
        node_type: match n.node_type {
            Some(t) => t@,
            None => "UNKNOWN"@,
        },
        visible: n.visible,
        characters: characters_from(n),
        style: style_from(n),
        fills: paints_from(n.fill_paints),
        strokes: paints_from(n.stroke_paints),
        corner_radius: n.corner_radius,
        absolute_bounding_box: match pos[idx] {
            Some(p) => Some(BoundingBox { x: p.x, y: p.y, width: p.w, height: p.h }),
            None => None,
        },
        padding_left: n.padding_left,
        padding_right: n.padding_right,
        padding_top: n.padding_top,
        padding_bottom: n.padding_bottom,
        item_spacing: None,
        fill_geometry: paths_from(n.fill_geometry),
        stroke_geometry: paths_from(n.stroke_geometry),
        children: if cs.len() > 0 && fuel > 0 {
            Some(Seq::new(cs.len(), |k: int| build(nodes, pos, cs[k] as int, (fuel - 1) as nat)))
        } else {
            None
        },
        component_id: None,
    }
}

/// The design tree of a capture: rooted at the first record without a
/// parent, positioned from `(0, 0)`. None for an empty capture, and none
/// when the walk from the root does not end within as many levels as there
/// are records (the parent links then run in a cycle).
pub open spec fn tree_of(nodes: Seq<KiwiNode>) -> Option<FigmaNodeView> {
    let n = nodes.len();
    if n == 0 {
        None
    } else {
        let r = root_index(nodes);
        if walk_within(nodes, r, n) {
            let pos = place(nodes, r, 0, 0, Seq::new(n, |i: int| None), n);
            Some(build(nodes, pos, r, n))
        } else {
            None
        }
    }
}

// ---------------------------------------------------------------------------
// Executable conversion

/// A single number standing for a guid: the session id times 2^64 plus the
/// local id shifted into `0..2^64`. Distinct guids have distinct keys.
pub open spec fn guid_key(g: KiwiGuid) -> int {
    g.session_id as int * 18446744073709551616 + (g.local_id as int + 9223372036854775808)
}

proof fn lemma_guid_key_injective(a: KiwiGuid, b: KiwiGuid)
    requires
        guid_key(a) == guid_key(b),
    ensures
        a == b,
{
    let d: int = 18446744073709551616;
    let ra = a.local_id as int + 9223372036854775808;
    let rb = b.local_id as int + 9223372036854775808;
    vstd::arithmetic::div_mod::lemma_fundamental_div_mod_converse(guid_key(a), d, a.session_id as int, ra);
    vstd::arithmetic::div_mod::lemma_fundamental_div_mod_converse(guid_key(b), d, b.session_id as int, rb);
}

fn guid_key_exec(g: &KiwiGuid) -> (r: i128)
    ensures
        r as int == guid_key(*g),
{
    let s: i128 = g.session_id as i128;
    let l: i128 = g.local_id as i128 + 9223372036854775808i128;
    assert(-9223372036854775808 <= s <= 9223372036854775807);
    assert(s * 18446744073709551616 >= -170141183460469231731687303715884105728) by (nonlinear_arith)
        requires
            -9223372036854775808 <= s,
    ;
    assert(s * 18446744073709551616 <= 170141183460469231713240559642174554112) by (nonlinear_arith)
        requires
            s <= 9223372036854775807,
    ;
    s * 18446744073709551616i128 + l
}

/// The children lookup holds, for every guid, the indices of the first
/// `upto` records that name it as parent (and no entry when there are none).
pub open spec fn children_map_ok(nodes: Seq<KiwiNode>, m: Map<i128, Vec<usize>>, upto: int) -> bool {
    forall|g: KiwiGuid|
        {
            let k = guid_key(g) as i128;
            &&& #[trigger] m.contains_key(guid_key(g) as i128) == (children_upto(nodes, g, upto).len() > 0)
            &&& m.contains_key(k) ==> m[k]@ == children_upto(nodes, g, upto)
        }
}

proof fn lemma_children_bounded(nodes: Seq<KiwiNode>, g: KiwiGuid, k: int)
    requires
        0 <= k <= nodes.len(),
    ensures
        forall|i: int| 0 <= i < children_upto(nodes, g, k).len() ==> (#[trigger] children_upto(nodes, g, k)[i]) < k,
    decreases k,
{
    if k > 0 {
        lemma_children_bounded(nodes, g, k - 1);
        let c = children_upto(nodes, g, k - 1);
        assert forall|i: int| 0 <= i < children_upto(nodes, g, k).len() implies (#[trigger] children_upto(nodes, g, k)[i]) < k by {
            if i < c.len() {
                assert(children_upto(nodes, g, k)[i] == c[i]);
            }
        }
    }
}

fn build_children_map(nodes: &Vec<KiwiNode>) -> (m: HashMap<i128, Vec<usize>>)
    ensures
        children_map_ok(nodes@, m@, nodes@.len() as int),
{
    let mut m: HashMap<i128, Vec<usize>> = HashMap::new();
    let mut j: usize = 0;
    assert forall|g: KiwiGuid| #[trigger] m@.contains_key(guid_key(g) as i128) == (children_upto(nodes@, g, 0).len() > 0) by {}
    while j < nodes.len()
        invariant
            0 <= j <= nodes.len(),
            children_map_ok(nodes@, m@, j as int),
        decreases nodes.len() - j,
    {
        match &nodes[j].parent_index {
            None => {
                proof {
                    assert forall|g: KiwiGuid| children_upto(nodes@, g, j + 1) == children_upto(nodes@, g, j as int) by {}
                }
            },
            Some(pi) => {
                let key = guid_key_exec(&pi.guid);
                let ghost p = pi.guid;
                let ghost m0 = m@;
                proof {
                    assert(key == guid_key(p) as i128);
                    assert(m0.contains_key(guid_key(p) as i128) == (children_upto(nodes@, p, j as int).len() > 0));
                }
                let mut v = match m.remove(&key) {
                    Some(v) => v,
                    None => Vec::new(),
                };
                proof {
                    if !m0.contains_key(key) {
                        assert(children_upto(nodes@, p, j as int) =~= Seq::<usize>::empty());
                    }
                    assert(v@ == children_upto(nodes@, p, j as int));
                }
                v.push(j);
                let ghost old_m = m@;
                m.insert(key, v);
                proof {
                    assert forall|g: KiwiGuid| {
                        let k = guid_key(g) as i128;
                        &&& #[trigger] m@.contains_key(guid_key(g) as i128) == (children_upto(nodes@, g, j + 1).len() > 0)
                        &&& m@.contains_key(k) ==> m@[k]@ == children_upto(nodes@, g, j + 1)
                    } by {
                        if g == p {
                        } else {
                            if guid_key(g) as i128 == key {
                                assert(guid_key(g) == guid_key(p));
                                lemma_guid_key_injective(g, p);
                            }
                            assert(children_upto(nodes@, g, j + 1) == children_upto(nodes@, g, j as int));
                        }
                    }
                }
            },
        }
        j = j + 1;
    }
    m
}

/// Looks up the children of record `idx`.
fn children_lookup<'a>(nodes: &Vec<KiwiNode>, m: &'a HashMap<i128, Vec<usize>>, idx: usize) -> (r: Option<&'a Vec<usize>>)
    requires
        idx < nodes.len(),
        children_map_ok(nodes@, m@, nodes@.len() as int),
    ensures
        match r {
            Some(v) => v@ == children_of(nodes@, nodes@[idx as int].guid) && v@.len() > 0,
            None => children_of(nodes@, nodes@[idx as int].guid).len() == 0,
        },
        forall|i: int| 0 <= i < children_of(nodes@, nodes@[idx as int].guid).len() ==> (#[trigger] children_of(nodes@, nodes@[idx as int].guid)[i]) < nodes@.len(),
{
    let ghost g = nodes@[idx as int].guid;
    let key = guid_key_exec(&nodes[idx].guid);
    proof {
        assert(key == guid_key(g) as i128);
        assert(m@.contains_key(guid_key(g) as i128) == (children_upto(nodes@, g, nodes@.len() as int).len() > 0));
        lemma_children_bounded(nodes@, g, nodes@.len() as int);
    }
    m.get(&key)
}

/// Whether the walk from record `idx` stays within `fuel` levels (see `walk_within`).
fn walk_within_exec(nodes: &Vec<KiwiNode>, m: &HashMap<i128, Vec<usize>>, idx: usize, fuel: usize) -> (r: bool)
    requires
        idx < nodes.len(),
        children_map_ok(nodes@, m@, nodes@.len() as int),
    ensures
        r == walk_within(nodes@, idx as int, fuel as nat),
    decreases fuel,
{
    if fuel == 0 {
        return false;
    }
    let ghost cs = children_of(nodes@, nodes@[idx as int].guid);
    match children_lookup(nodes, m, idx) {
        None => {
            proof {
                assert(walk_within(nodes@, idx as int, fuel as nat));
            }
            true
        },
        Some(v) => {
            let mut k: usize = 0;
            while k < v.len()
                invariant
                    0 <= k <= v.len(),
                    v@ == cs,
                    fuel > 0,
                    idx < nodes.len(),
                    cs == children_of(nodes@, nodes@[idx as int].guid),
                    children_map_ok(nodes@, m@, nodes@.len() as int),
                    forall|i: int| 0 <= i < cs.len() ==> (#[trigger] cs[i]) < nodes@.len(),
                    forall|i: int| 0 <= i < k ==> walk_within(nodes@, #[trigger] cs[i] as int, (fuel - 1) as nat),
                decreases v.len() - k,
            {
                let c = v[k];
                assert(cs[k as int] == c);
                if !walk_within_exec(nodes, m, c, fuel - 1) {
                    return false;
                }
                k = k + 1;
            }
            true
        },
    }
}

/// Places record `idx` below a parent at `(px, py)`, then its subtree (see `place`).
fn compute_absolute_positions(
    nodes: &Vec<KiwiNode>,
    idx: usize,
    px: Fixed,
    py: Fixed,
    m: &HashMap<i128, Vec<usize>>,
    abs_pos: &mut Vec<Option<AbsolutePosition>>,
    Ghost(fuel): Ghost<nat>,
)
    requires
        idx < nodes.len(),
        old(abs_pos)@.len() == nodes@.len(),
        children_map_ok(nodes@, m@, nodes@.len() as int),
        walk_within(nodes@, idx as int, fuel),
    ensures
        final(abs_pos)@ == place(nodes@, idx as int, px, py, old(abs_pos)@, fuel),
        final(abs_pos)@.len() == nodes@.len(),
    decreases fuel,
{
    let node = &nodes[idx];
    let (tx, ty): (Fixed, Fixed) = match &node.transform {
        Some(t) => (t.m02, t.m12),
        None => (0, 0),
    };
    let abs_x = add_sat(px, tx);
    let abs_y = add_sat(py, ty);
    let (w, h): (Fixed, Fixed) = match &node.size {
        Some(s) => (s.x, s.y),
        None => (0, 0),
    };
    abs_pos.set(idx, Some(AbsolutePosition { x: abs_x, y: abs_y, w, h }));
    let ghost pos1 = abs_pos@;
    let ghost cs = children_of(nodes@, nodes@[idx as int].guid);
    match children_lookup(nodes, m, idx) {
        None => {
            proof {
                assert(place_list(nodes@, cs, cs.len() as int, abs_x, abs_y, pos1, (fuel - 1) as nat) == pos1);
            }
        },
        Some(v) => {
            let mut k: usize = 0;
            while k < v.len()
                invariant
                    0 <= k <= v.len(),
                    v@ == cs,
                    fuel > 0,
                    cs == children_of(nodes@, nodes@[idx as int].guid),
                    children_map_ok(nodes@, m@, nodes@.len() as int),
                    walk_within(nodes@, idx as int, fuel),
                    forall|i: int| 0 <= i < cs.len() ==> (#[trigger] cs[i]) < nodes@.len(),
                    abs_pos@.len() == nodes@.len(),
                    abs_pos@ == place_list(nodes@, cs, k as int, abs_x, abs_y, pos1, (fuel - 1) as nat),
                decreases v.len() - k,
            {
                let c = v[k];
                assert(cs[k as int] == c);
                assert(walk_within(nodes@, cs[k as int] as int, (fuel - 1) as nat));
                compute_absolute_positions(nodes, c, abs_x, abs_y, m, abs_pos, Ghost((fuel - 1) as nat));
                k = k + 1;
            }
        },
    }
}

fn paints_exec(o: &Option<Vec<KiwiFill>>) -> (r: Option<Vec<Paint>>)
    ensures
        crate::figma::opt_paints(r) == paints_from(*o),
{
    match o {
        None => None,
        Some(fps) => {
            let mut out: Vec<Paint> = Vec::new();
            let mut i: usize = 0;
            while i < fps.len()
                invariant
                    0 <= i <= fps.len(),
                    out@.len() == i,
                    forall|j: int| 0 <= j < i ==> (#[trigger] out@[j])@ == paint_from(fps@[j]),
                decreases fps.len() - i,
            {
                let f = &fps[i];
                let p = Paint {
                    paint_type: clone_text(&f.fill_type),
                    color: f.color,
                    visible: f.visible,
                    opacity: f.opacity,
                    image_ref: clone_text(&f.image_ref),
                };
                assert(p@ == paint_from(*f));
                out.push(p);
                i = i + 1;
            }
            proof {
                assert(out@.map_values(|x: Paint| x@) =~= fps@.map_values(|f: KiwiFill| paint_from(f)));
            }
            Some(out)
        },
    }
}

fn paths_exec(o: &Option<Vec<KiwiVectorPath>>) -> (r: Option<Vec<VectorPath>>)
    ensures
        crate::figma::opt_paths(r) == paths_from(*o),
{
    match o {
        None => None,
        Some(ps) => {
            let mut out: Vec<VectorPath> = Vec::new();
            let mut i: usize = 0;
            assert(ps@.take(0) =~= Seq::<KiwiVectorPath>::empty());
            while i < ps.len()
                invariant
                    0 <= i <= ps.len(),
                    out@.map_values(|x: VectorPath| x@) =~= present_paths(ps@.take(i as int)),
                decreases ps.len() - i,
            {
                let ghost t = ps@.take(i + 1);
                proof {
                    assert(t.drop_last() =~= ps@.take(i as int));
                    assert(t.last() == ps@[i as int]);
                }
                match &ps[i].path {
                    Some(p) => {
                        out.push(VectorPath { path: p.clone(), winding_rule: clone_text(&ps[i].winding_rule) });
                    },
                    None => {},
                }
                i = i + 1;
                proof {
                    assert(out@.map_values(|x: VectorPath| x@) =~= present_paths(ps@.take(i as int)));
                }
            }
            proof {
                assert(ps@.take(ps@.len() as int) =~= ps@);
            }
            Some(out)
        },
    }
}

fn characters_exec(n: &KiwiNode) -> (r: Option<String>)
    ensures
        opt_text(r) == characters_from(*n),
{
    match &n.text_data {
        Some(td) => clone_text(&td.characters),
        None => None,
    }
}

fn laid_out_weight_exec(n: &KiwiNode) -> (r: Option<Fixed>)
    ensures
        r == laid_out_weight(*n),
{
    match &n.derived_text_data {
        Some(d) => match &d.font_meta_data {
            Some(m) => if m.len() > 0 {
                m[0].font_weight
            } else {
                None
            },
            None => None,
        },
        None => None,
    }
}

fn style_exec(n: &KiwiNode) -> (r: Option<TypeStyle>)
    ensures
        crate::figma::opt_style(r) == style_from(*n),
{
    match &n.font_name {
        None => None,
        Some(f) => {
            let font_weight = match laid_out_weight_exec(n) {
                Some(w) => Some(w),
                None => match &f.style {
                    Some(st) => style_to_weight(Some(st.as_str())),
                    None => style_to_weight(None),
                },
            };
            Some(
                TypeStyle {
                    font_family: Some(f.family.clone()),
                    font_weight,
                    font_size: n.font_size,
                    letter_spacing: None,
                    line_height_px: None,
                },
            )
        },
    }
}

/// Builds the design node of record `idx` and, below it, of its subtree
/// (see `build`).
fn build_figma_node(
    nodes: &Vec<KiwiNode>,
    idx: usize,
    m: &HashMap<i128, Vec<usize>>,
    abs_pos: &Vec<Option<AbsolutePosition>>,
    Ghost(fuel): Ghost<nat>,
) -> (r: FigmaNode)
    requires
        idx < nodes.len(),
        abs_pos@.len() == nodes@.len(),
        children_map_ok(nodes@, m@, nodes@.len() as int),
        walk_within(nodes@, idx as int, fuel),
    ensures
        r@ == build(nodes@, abs_pos@, idx as int, fuel),
    decreases fuel,
{
    let n = &nodes[idx];
    let ghost cs = children_of(nodes@, nodes@[idx as int].guid);
    let bbox = match abs_pos[idx] {
        Some(p) => Some(BoundingBox { x: p.x, y: p.y, width: p.w, height: p.h }),
        None => None,
    };
    let children: Option<Vec<FigmaNode>> = match children_lookup(nodes, m, idx) {
        None => None,
        Some(v) => {
            let mut out: Vec<FigmaNode> = Vec::new();
            let mut k: usize = 0;
            while k < v.len()
                invariant
                    0 <= k <= v.len(),
                    v@ == cs,
                    fuel > 0,
                    cs == children_of(nodes@, nodes@[idx as int].guid),
                    children_map_ok(nodes@, m@, nodes@.len() as int),
                    walk_within(nodes@, idx as int, fuel),
                    abs_pos@.len() == nodes@.len(),
                    forall|i: int| 0 <= i < cs.len() ==> (#[trigger] cs[i]) < nodes@.len(),
                    out@.len() == k,
                    forall|i: int| 0 <= i < k ==> (#[trigger] out@[i])@ == build(nodes@, abs_pos@, cs[i] as int, (fuel - 1) as nat),
                decreases v.len() - k,
            {
                let c = v[k];
                assert(cs[k as int] == c);
                assert(walk_within(nodes@, cs[k as int] as int, (fuel - 1) as nat));
                let child = build_figma_node(nodes, c, m, abs_pos, Ghost((fuel - 1) as nat));
                out.push(child);
                k = k + 1;
            }
            proof {
                assert(nodes_view(out@) =~= Seq::new(cs.len(), |k: int| build(nodes@, abs_pos@, cs[k] as int, (fuel - 1) as nat)));
            }
            Some(out)
        },
    };
    let name = match &n.name {
        Some(s) => s.clone(),
        None => String::new(),
    };
    let node_type = match &n.node_type {
        Some(t) => t.clone(),
        None => owned("UNKNOWN"),
    };
    let r = FigmaNode {
        id: n.guid.to_string(),
        name,
        node_type,
        visible: n.visible,
        characters: characters_exec(n),
        style: style_exec(n),
        fills: paints_exec(&n.fill_paints),
        strokes: paints_exec(&n.stroke_paints),
        corner_radius: n.corner_radius,
        absolute_bounding_box: bbox,
        padding_left: n.padding_left,
        padding_right: n.padding_right,
        padding_top: n.padding_top,
        padding_bottom: n.padding_bottom,
        item_spacing: None,
        fill_geometry: paths_exec(&n.fill_geometry),
        stroke_geometry: paths_exec(&n.stroke_geometry),
        children,
        component_id: None,
    };
    proof {
        let b = build(nodes@, abs_pos@, idx as int, fuel);
        assert(r@.children == b.children);
    }
    r
}

/// Model of an optional design node.
pub open spec fn opt_node(o: Option<FigmaNode>) -> Option<FigmaNodeView> {
    match o {
        Some(n) => Some(n@),
        None => None,
    }
}

/// The index of the first record without a parent, else 0 (see `root_index`).
fn find_root(nodes: &Vec<KiwiNode>) -> (r: usize)
    requires
        nodes.len() > 0,
    ensures
        r as int == root_index(nodes@),
        r < nodes.len(),
{
    let mut i: usize = 0;
    while i < nodes.len()
        invariant
            0 <= i <= nodes.len(),
            forall|j: int| 0 <= j < i ==> (#[trigger] nodes@[j]).parent_index is Some,
        decreases nodes.len() - i,
    {
        if nodes[i].parent_index.is_none() {
            proof {
                let c = choose|c: int|
                    0 <= c < nodes@.len() && (#[trigger] nodes@[c]).parent_index is None && forall|j: int|
                        0 <= j < c ==> (#[trigger] nodes@[j]).parent_index is Some;
                assert(0 <= (i as int) < nodes@.len() && nodes@[i as int].parent_index is None && forall|j: int|
                    0 <= j < i ==> (#[trigger] nodes@[j]).parent_index is Some);
                if c < i {
                    assert(nodes@[c].parent_index is Some);
                }
                if c > i {
                    assert(nodes@[i as int].parent_index is Some);
                }
            }
            return i;
        }
        i = i + 1;
    }
    0
}

/// Whether a capture has a design tree (see `tree_of`): it holds a record,
/// and the walk down from its root ends within as many levels as there are
/// records, that is, the parent links below the root run in no cycle.
pub fn has_tree(doc: &KiwiDocument) -> (r: bool)
    ensures
        r == (tree_of(doc.node_changes@) is Some),
{
    let nodes = &doc.node_changes;
    let n = nodes.len();
    if n == 0 {
        return false;
    }
    let m = build_children_map(nodes);
    let root = find_root(nodes);
    walk_within_exec(nodes, &m, root, n)
}

/// Rebuilds the design tree of a capture from its flat records (see
/// `tree_of`): ids from guids, parents from parent links, absolute
/// positions accumulated down the translations, paints, text, fonts and
/// outlines carried over. The capture must hold a record, and its parent
/// links below the root must run in no cycle (`has_tree` tells).
pub fn convert_to_figma_tree(doc: &KiwiDocument) -> (r: FigmaNode)
    requires
        doc.node_changes@.len() > 0,
        walk_within(doc.node_changes@, root_index(doc.node_changes@), doc.node_changes@.len()),
    ensures
        tree_of(doc.node_changes@) == Some(r@),
{
    let nodes = &doc.node_changes;
    let n = nodes.len();
    let m = build_children_map(nodes);
    let root = find_root(nodes);
    let mut abs_pos: Vec<Option<AbsolutePosition>> = Vec::new();
    let mut i: usize = 0;
    while i < n
        invariant
            0 <= i <= n,
            abs_pos@ =~= Seq::new(i as nat, |j: int| None::<AbsolutePosition>),
        decreases n - i,
    {
        abs_pos.push(None);
        i = i + 1;
    }
    compute_absolute_positions(nodes, root, 0, 0, &m, &mut abs_pos, Ghost(n as nat));
    build_figma_node(nodes, root, &m, &abs_pos, Ghost(n as nat))
}


// ---------------------------------------------------------------------------
// Laws

proof fn lemma_first_parentless(nodes: Seq<KiwiNode>, i: int)
    requires
        0 <= i < nodes.len(),
        nodes[i].parent_index is None,
    ensures
        exists|r: int|
            0 <= r < nodes.len() && (#[trigger] nodes[r]).parent_index is None && forall|j: int|
                0 <= j < r ==> (#[trigger] nodes[j]).parent_index is Some,
    decreases i,
{
    if exists|j: int| 0 <= j < i && (#[trigger] nodes[j]).parent_index is None {
        let j = choose|j: int| 0 <= j < i && (#[trigger] nodes[j]).parent_index is None;
        lemma_first_parentless(nodes, j);
    } else {
        assert(forall|j: int| 0 <= j < i ==> (#[trigger] nodes[j]).parent_index is Some);
    }
}

/// The tree of a capture is rooted at its first record without a parent
/// (at its first record when every record has a parent): the tree's id,
/// name and type are that record's. An empty capture has no tree.
pub proof fn lemma_tree_root(nodes: Seq<KiwiNode>)
    ensures
        nodes.len() == 0 ==> tree_of(nodes) is None,
        tree_of(nodes) matches Some(t) ==> ({
            let r = root_index(nodes);
            &&& 0 <= r < nodes.len()
            &&& t.id == guid_text(nodes[r].guid)
            &&& t.name == match nodes[r].name {
                Some(s) => s@,
                None => seq![],
            }
            &&& (forall|j: int| 0 <= j < r ==> (#[trigger] nodes[j]).parent_index is Some)
            &&& ((exists|i: int| 0 <= i < nodes.len() && (#[trigger] nodes[i]).parent_index is None)
                ==> nodes[r].parent_index is None)
            &&& ((forall|i: int| 0 <= i < nodes.len() ==> (#[trigger] nodes[i]).parent_index is Some) ==> r == 0)
        }),
{
    if nodes.len() > 0 {
        if exists|i: int| 0 <= i < nodes.len() && (#[trigger] nodes[i]).parent_index is None {
            let i = choose|i: int| 0 <= i < nodes.len() && (#[trigger] nodes[i]).parent_index is None;
            lemma_first_parentless(nodes, i);
        }
    }
}

/// Each design node rebuilt from a record carries the record's own guid
/// text as id, its name (empty without one), its type (`UNKNOWN` without
/// one), its visibility, its text, its corner radius and its padding; its
/// children, when it has any, are the nodes rebuilt from the records naming
/// it as parent, in record order. The tree of a capture is the node rebuilt
/// from its root record.
pub proof fn lemma_build_carries_record(
    nodes: Seq<KiwiNode>,
    pos: Seq<Option<AbsolutePosition>>,
    idx: int,
    fuel: nat,
)
    ensures
        ({
            let t = build(nodes, pos, idx, fuel);
            let n = nodes[idx];
            &&& t.id == int_text(n.guid.session_id as int) + seq![':'] + int_text(n.guid.local_id as int)
            &&& t.name == match n.name {
                Some(s) => s@,
                None => seq![],
            }
            &&& t.node_type == match n.node_type {
                Some(s) => s@,
                None => "UNKNOWN"@,
            }
            &&& t.visible == n.visible
            &&& t.characters == match n.text_data {
                Some(d) => match d.characters {
                    Some(c) => Some(c@),
                    None => None,
                },
                None => None,
            }
            &&& t.corner_radius == n.corner_radius
            &&& t.padding_left == n.padding_left
            &&& t.padding_right == n.padding_right
            &&& t.padding_top == n.padding_top
            &&& t.padding_bottom == n.padding_bottom
            &&& t.children matches Some(c) ==> {
                &&& c.len() == children_of(nodes, n.guid).len()
                &&& forall|k: int|
                    0 <= k < c.len() ==> #[trigger] c[k] == build(nodes, pos, children_of(nodes, n.guid)[k] as int, (fuel - 1) as nat)
            }
        }),
        tree_of(nodes) matches Some(t) ==> ({
            let r = root_index(nodes);
            &&& t == build(nodes, place(nodes, r, 0, 0, Seq::new(nodes.len(), |i: int| None), nodes.len()), r, nodes.len())
            &&& t.visible == nodes[r].visible
            &&& t.id == int_text(nodes[r].guid.session_id as int) + seq![':'] + int_text(nodes[r].guid.local_id as int)
        }),
{
}

} // verus!
