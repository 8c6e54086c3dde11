use fdb::figma::FigmaNode;
use fdb::kiwi::{
    convert_to_figma_tree, has_tree, style_to_weight, KiwiDerivedTextData, KiwiDocument, KiwiFill,
    KiwiFontMeta, KiwiFontName, KiwiGuid, KiwiNode, KiwiParentIndex, KiwiSize, KiwiTextData,
    KiwiTransform, KiwiVectorPath,
};

fn guid(s: i64, l: i64) -> KiwiGuid {
    KiwiGuid { session_id: s, local_id: l }
}

fn record(g: KiwiGuid, parent: Option<KiwiGuid>, node_type: &str, name: &str) -> KiwiNode {
    KiwiNode {
        guid: g,
        node_type: Some(node_type.to_string()),
        name: Some(name.to_string()),
        visible: None,
        opacity: None,
        transform: None,
        size: None,
        parent_index: parent.map(|p| KiwiParentIndex { guid: p, position: None }),
        fill_paints: None,
        stroke_paints: None,
        font_name: None,
        font_size: None,
        text_data: None,
        derived_text_data: None,
        corner_radius: None,
        padding_left: None,
        padding_right: None,
        padding_top: None,
        padding_bottom: None,
        fill_geometry: None,
        stroke_geometry: None,
    }
}

fn moved(mut n: KiwiNode, x: i64, y: i64) -> KiwiNode {
    n.transform = Some(KiwiTransform {
        m00: 1_000_000,
        m01: 0,
        m02: x * 1_000_000,
        m10: 0,
        m11: 1_000_000,
        m12: y * 1_000_000,
    });
    n
}

fn sized(mut n: KiwiNode, w: i64, h: i64) -> KiwiNode {
    n.size = Some(KiwiSize { x: w * 1_000_000, y: h * 1_000_000 });
    n
}

fn doc(nodes: Vec<KiwiNode>) -> KiwiDocument {
    KiwiDocument { doc_type: Some("NODE_CHANGES".to_string()), node_changes: nodes }
}

fn child<'a>(n: &'a FigmaNode, i: usize) -> &'a FigmaNode {
    &n.children.as_ref().unwrap()[i]
}

#[test]
fn guid_text_is_session_colon_local() {
    assert_eq!(guid(0, 1).to_string(), "0:1");
    assert_eq!(guid(12, 3456).to_string(), "12:3456");
    assert_eq!(guid(-3, 7).to_string(), "-3:7");
}

#[test]
fn style_names_map_to_weights() {
    assert_eq!(style_to_weight(Some("Thin")), Some(100_000_000));
    assert_eq!(style_to_weight(Some("Hairline")), Some(100_000_000));
    assert_eq!(style_to_weight(Some("UltraLight")), Some(200_000_000));
    assert_eq!(style_to_weight(Some("Light")), Some(300_000_000));
    assert_eq!(style_to_weight(Some("Normal")), Some(400_000_000));
    assert_eq!(style_to_weight(Some("Medium")), Some(500_000_000));
    assert_eq!(style_to_weight(Some("DemiBold")), Some(600_000_000));
    assert_eq!(style_to_weight(Some("Bold")), Some(700_000_000));
    assert_eq!(style_to_weight(Some("UltraBold")), Some(800_000_000));
    assert_eq!(style_to_weight(Some("Heavy")), Some(900_000_000));
    assert_eq!(style_to_weight(Some("Italic")), None);
    assert_eq!(style_to_weight(Some("bold")), None);
    assert_eq!(style_to_weight(None), None);
}

#[test]
fn positions_accumulate_down_the_translations() {
    let nodes = vec![
        record(guid(0, 0), None, "DOCUMENT", "Document"),
        moved(record(guid(0, 1), Some(guid(0, 0)), "CANVAS", "Page"), 10, 20),
        sized(moved(record(guid(1, 2), Some(guid(0, 1)), "FRAME", "Site"), 5, 5), 100, 50),
        sized(moved(record(guid(1, 3), Some(guid(1, 2)), "TEXT", "Title"), -2, 3), 40, 10),
    ];
    let tree = convert_to_figma_tree(&doc(nodes));
    assert_eq!(tree.id, "0:0");
    assert_eq!(tree.name, "Document");
    let b0 = tree.absolute_bounding_box.unwrap();
    assert_eq!((b0.x, b0.y, b0.width, b0.height), (0, 0, 0, 0));
    let page = child(&tree, 0);
    let b1 = page.absolute_bounding_box.unwrap();
    assert_eq!((b1.x, b1.y), (10_000_000, 20_000_000));
    let site = child(page, 0);
    assert_eq!(site.id, "1:2");
    let b2 = site.absolute_bounding_box.unwrap();
    assert_eq!((b2.x, b2.y, b2.width, b2.height), (15_000_000, 25_000_000, 100_000_000, 50_000_000));
    let title = child(site, 0);
    let b3 = title.absolute_bounding_box.unwrap();
    assert_eq!((b3.x, b3.y, b3.width, b3.height), (13_000_000, 28_000_000, 40_000_000, 10_000_000));
    assert!(title.children.is_none());
}

#[test]
fn children_keep_record_order() {
    let nodes = vec![
        record(guid(0, 5), Some(guid(0, 0)), "TEXT", "B"),
        record(guid(0, 0), None, "FRAME", "Root"),
        record(guid(0, 4), Some(guid(0, 0)), "TEXT", "A"),
        record(guid(0, 9), Some(guid(9, 9)), "TEXT", "Orphan"),
    ];
    let tree = convert_to_figma_tree(&doc(nodes));
    assert_eq!(tree.id, "0:0");
    let names: Vec<&str> = tree.children.as_ref().unwrap().iter().map(|c| c.name.as_str()).collect();
    assert_eq!(names, vec!["B", "A"]);
}

#[test]
fn empty_capture_has_no_tree() {
    assert!(!has_tree(&doc(vec![])));
}

#[test]
fn cyclic_parent_links_have_no_tree() {
    let nodes = vec![
        record(guid(0, 1), Some(guid(0, 2)), "FRAME", "A"),
        record(guid(0, 2), Some(guid(0, 1)), "FRAME", "B"),
    ];
    assert!(!has_tree(&doc(nodes)));
}

#[test]
fn without_a_parentless_record_the_first_is_the_root() {
    let nodes = vec![
        record(guid(0, 1), Some(guid(7, 7)), "FRAME", "First"),
        record(guid(0, 2), Some(guid(0, 1)), "TEXT", "Below"),
    ];
    let tree = convert_to_figma_tree(&doc(nodes));
    assert_eq!(tree.name, "First");
    assert_eq!(child(&tree, 0).name, "Below");
}

#[test]
fn record_fields_map_onto_the_node() {
    let mut text = record(guid(2, 1), Some(guid(0, 0)), "TEXT", "Label");
    text.text_data = Some(KiwiTextData { characters: Some("Hello".to_string()) });
    text.font_name = Some(KiwiFontName {
        family: "Inter".to_string(),
        style: Some("SemiBold".to_string()),
        postscript: None,
    });
    text.font_size = Some(14_000_000);
    text.fill_paints = Some(vec![KiwiFill {
        fill_type: Some("SOLID".to_string()),
        color: Some(fdb::figma::FigmaColor { r: 0, g: 0, b: 0, a: 1_000_000 }),
        opacity: Some(1_000_000),
        visible: Some(true),
        image_ref: None,
    }]);
    text.corner_radius = Some(4_000_000);
    text.padding_top = Some(2_000_000);

    let mut laid_out = record(guid(2, 2), Some(guid(0, 0)), "TEXT", "Heavy");
    laid_out.font_name = Some(KiwiFontName { family: "Inter".to_string(), style: Some("Regular".to_string()), postscript: None });
    laid_out.derived_text_data = Some(KiwiDerivedTextData {
        font_meta_data: Some(vec![KiwiFontMeta { key: None, font_weight: Some(700_000_000) }]),
        truncation_start_index: None,
    });

    let mut vector = record(guid(2, 3), Some(guid(0, 0)), "VECTOR", "Icon");
    vector.fill_geometry = Some(vec![
        KiwiVectorPath { path: None, winding_rule: Some("NONZERO".to_string()) },
        KiwiVectorPath { path: Some("M0 0".to_string()), winding_rule: Some("EVENODD".to_string()) },
    ]);
    let mut untyped = record(guid(2, 4), Some(guid(0, 0)), "X", "Untyped");
    untyped.node_type = None;
    untyped.name = None;

    let nodes = vec![record(guid(0, 0), None, "FRAME", "Root"), text, laid_out, vector, untyped];
    let tree = convert_to_figma_tree(&doc(nodes));

    let t = child(&tree, 0);
    assert_eq!(t.id, "2:1");
    assert_eq!(t.characters.as_deref(), Some("Hello"));
    let style = t.style.as_ref().unwrap();
    assert_eq!(style.font_family.as_deref(), Some("Inter"));
    assert_eq!(style.font_weight, Some(600_000_000));
    assert_eq!(style.font_size, Some(14_000_000));
    let fills = t.fills.as_ref().unwrap();
    assert_eq!(fills.len(), 1);
    assert_eq!(fills[0].paint_type.as_deref(), Some("SOLID"));
    assert_eq!(fills[0].visible, Some(true));
    assert_eq!(t.corner_radius, Some(4_000_000));
    assert_eq!(t.padding_top, Some(2_000_000));
    assert!(t.strokes.is_none());

    let h = child(&tree, 1);
    assert_eq!(h.style.as_ref().unwrap().font_weight, Some(700_000_000));

    let v = child(&tree, 2);
    let geo = v.fill_geometry.as_ref().unwrap();
    assert_eq!(geo.len(), 1);
    assert_eq!(geo[0].path, "M0 0");
    assert_eq!(geo[0].winding_rule.as_deref(), Some("EVENODD"));
    assert!(v.stroke_geometry.is_none());

    let u = child(&tree, 3);
    assert_eq!(u.node_type, "UNKNOWN");
    assert_eq!(u.name, "");
}

#[test]
fn shared_guid_children_keep_the_last_placement() {
    // Two records share a guid: their common children are placed twice and
    // keep the position from the last parent visited.
    let nodes = vec![
        record(guid(0, 0), None, "DOCUMENT", "Root"),
        moved(record(guid(0, 1), Some(guid(0, 0)), "FRAME", "A"), 10, 0),
        moved(record(guid(0, 1), Some(guid(0, 0)), "FRAME", "B"), 20, 0),
        moved(record(guid(0, 2), Some(guid(0, 1)), "TEXT", "C"), 1, 0),
    ];
    let tree = convert_to_figma_tree(&doc(nodes));
    let a = child(&tree, 0);
    let b = child(&tree, 1);
    assert_eq!(a.absolute_bounding_box.unwrap().x, 10_000_000);
    assert_eq!(b.absolute_bounding_box.unwrap().x, 20_000_000);
    assert_eq!(child(a, 0).absolute_bounding_box.unwrap().x, 21_000_000);
    assert_eq!(child(b, 0).absolute_bounding_box.unwrap().x, 21_000_000);
}

#[test]
fn self_parented_root_has_no_tree() {
    let nodes = vec![record(guid(1, 1), Some(guid(1, 1)), "FRAME", "Loop")];
    assert!(!has_tree(&doc(nodes)));
    let ok = vec![record(guid(1, 1), None, "FRAME", "Fine")];
    assert!(has_tree(&doc(ok)));
}
