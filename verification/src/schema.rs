use vstd::prelude::*;
use crate::fixed::Fixed;

verus! {

/// The text view of an optional `String`.
pub open spec fn opt_text(o: Option<String>) -> Option<Seq<char>> {
    match o {
        Some(s) => Some(s@),
        None => None,
    }
}

/// The text views of a list of `String`s.
pub open spec fn texts(v: Seq<String>) -> Seq<Seq<char>> {
    v.map_values(|s: String| s@)
}

/// The semantic description of one screen: the document that is written out
/// as YAML.
pub struct SemanticSchema {
    pub screen: String,
    pub device: String,
    pub platform: String,
    pub timestamp: String,
    pub elements: Vec<SemanticElement>,
}

/// One element of a screen.
pub struct SemanticElement {
    pub id: String,
    pub platform_id: Option<String>,
    pub elem_type: String,
    pub content: Option<String>,
    pub font: Option<Font>,
    pub color: Option<String>,
    pub bounds: Bounds,
    pub clickable: bool,
    pub background: Option<String>,
    pub corner_radius: Option<Fixed>,
    pub padding: Option<Padding>,
    pub icon: Option<Icon>,
    pub render: Option<String>,
    pub image_path: Option<String>,
    pub children: Option<Vec<SemanticElement>>,
}

/// Position and size of an element, in whole points relative to the frame.
#[derive(Clone, Copy, Debug, PartialEq, Eq, Structural)]
pub struct Bounds {
    pub x: i32,
    pub y: i32,
    pub w: i32,
    pub h: i32,
}

/// Text style of an element.
pub struct Font {
    pub family: String,
    pub weight: String,
    pub size: Fixed,
}

/// Inner padding of an element, in whole points.
#[derive(Clone, Copy, Debug, PartialEq, Eq, Structural)]
pub struct Padding {
    pub top: i32,
    pub bottom: i32,
    pub start: i32,
    pub end: i32,
}

/// An icon reference of an element.
pub struct Icon {
    pub name: String,
    pub format: String,
    pub paths: Vec<String>,
}

/// Model of a `Font`.
pub struct FontView {
    pub family: Seq<char>,
    pub weight: Seq<char>,
    pub size: Fixed,
}

/// Model of an `Icon`.
pub struct IconView {
    pub name: Seq<char>,
    pub format: Seq<char>,
    pub paths: Seq<Seq<char>>,
}

/// Model of a `SemanticElement`.
pub struct ElementView {
    pub id: Seq<char>,
    pub platform_id: Option<Seq<char>>,
    pub elem_type: Seq<char>,
    pub content: Option<Seq<char>>,
    pub font: Option<FontView>,
    pub color: Option<Seq<char>>,
    pub bounds: Bounds,
    pub clickable: bool,
    pub background: Option<Seq<char>>,
    pub corner_radius: Option<Fixed>,
    pub padding: Option<Padding>,
    pub icon: Option<IconView>,
    pub render: Option<Seq<char>>,
    pub image_path: Option<Seq<char>>,
    pub children: Option<Seq<ElementView>>,
}

/// Model of a `SemanticSchema`.
pub struct SchemaView {
    pub screen: Seq<char>,
    pub device: Seq<char>,
    pub platform: Seq<char>,
    pub timestamp: Seq<char>,
    pub elements: Seq<ElementView>,
}

impl View for Font {
    type V = FontView;

    open spec fn view(&self) -> FontView {
        FontView { family: self.family@, weight: self.weight@, size: self.size }
    }
}

impl View for Icon {
    type V = IconView;

    open spec fn view(&self) -> IconView {
        IconView { name: self.name@, format: self.format@, paths: texts(self.paths@) }
    }
}

/// Model of an optional `Font`.
pub open spec fn opt_font(f: Option<Font>) -> Option<FontView> {
    match f {
        Some(f) => Some(f@),
        None => None,
    }
}

/// Model of an optional `Icon`.
pub open spec fn opt_icon(i: Option<Icon>) -> Option<IconView> {
    match i {
        Some(i) => Some(i@),
        None => None,
    }
}

/// Models of a list of elements.
pub open spec fn elements_view(s: Seq<SemanticElement>) -> Seq<ElementView>
    decreases s,
{
    Seq::new(
        s.len(),
        |i: int|
            if 0 <= i < s.len() {
                element_view(s[i])
            } else {
                empty_element()
            },
    )
}

/// Placeholder model used only outside the bounds of a list.
pub open spec fn empty_element() -> ElementView {
    ElementView {
        id: seq![],
        platform_id: None,
        elem_type: seq![],
        content: None,
        font: None,
        color: None,
        bounds: Bounds { x: 0, y: 0, w: 0, h: 0 },
        clickable: false,
        background: None,
        corner_radius: None,
        padding: None,
        icon: None,
        render: None,
        image_path: None,
        children: None,
    }
}

/// Model of one element.
pub open spec fn element_view(e: SemanticElement) -> ElementView
    decreases e,
{
    ElementView {
        id: e.id@,
        platform_id: opt_text(e.platform_id),
        elem_type: e.elem_type@,
        content: opt_text(e.content),
        font: opt_font(e.font),
        color: opt_text(e.color),
        bounds: e.bounds,
        clickable: e.clickable,
        background: opt_text(e.background),
        corner_radius: e.corner_radius,
        padding: e.padding,
        icon: opt_icon(e.icon),
        render: opt_text(e.render),
        image_path: opt_text(e.image_path),
        children: match e.children {
            Some(c) => Some(elements_view(c@)),
            None => None,
        },
    }
}

impl View for SemanticElement {
    type V = ElementView;

    open spec fn view(&self) -> ElementView {
        element_view(*self)
    }
}

impl View for SemanticSchema {
    type V = SchemaView;

    open spec fn view(&self) -> SchemaView {
        SchemaView {
            screen: self.screen@,
            device: self.device@,
            platform: self.platform@,
            timestamp: self.timestamp@,
            elements: elements_view(self.elements@),
        }
    }
}

} // verus!
