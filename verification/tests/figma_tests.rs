use fdb::figma::{
    chrono_now, classify_figma_type, color_hex, extract_fill_color, extract_schema,
    extract_schema_at, slugify, svg_document, timestamp_at, walk_node, weight_name, AssetContext,
    BoundingBox, FigmaColor, FigmaNode, Paint, TypeStyle, VectorPath,
};
use fdb::schema::SemanticElement;

fn node(id: &str, name: &str, node_type: &str) -> FigmaNode {
    FigmaNode {
        id: id.to_string(),
        name: name.to_string(),
        node_type: node_type.to_string(),
        visible: None,
        characters: None,
        style: None,
        fills: None,
        strokes: None,
        corner_radius: None,
        absolute_bounding_box: None,
        padding_left: None,
        padding_right: None,
        padding_top: None,
        padding_bottom: None,
        item_spacing: None,
        fill_geometry: None,
        stroke_geometry: None,
        children: None,
        component_id: None,
    }
}

fn bbox(x: i64, y: i64, w: i64, h: i64) -> BoundingBox {
    BoundingBox { x: x * 1_000_000, y: y * 1_000_000, width: w * 1_000_000, height: h * 1_000_000 }
}

fn solid(r: i64, g: i64, b: i64) -> Paint {
    Paint {
        paint_type: Some("SOLID".to_string()),
        color: Some(FigmaColor { r, g, b, a: 1_000_000 }),
        visible: None,
        opacity: None,
        image_ref: None,
    }
}

fn image_paint(hash: &str) -> Paint {
    Paint {
        paint_type: Some("IMAGE".to_string()),
        color: None,
        visible: None,
        opacity: None,
        image_ref: Some(hash.to_string()),
    }
}

#[test]
fn classification_follows_the_type_table() {
    assert_eq!(classify_figma_type("TEXT", true), "text");
    assert_eq!(classify_figma_type("RECTANGLE", false), "image");
    assert_eq!(classify_figma_type("ELLIPSE", false), "image");
    assert_eq!(classify_figma_type("LINE", false), "image");
    assert_eq!(classify_figma_type("VECTOR", false), "image");
    assert_eq!(classify_figma_type("INSTANCE", true), "button");
    assert_eq!(classify_figma_type("COMPONENT", false), "container");
    assert_eq!(classify_figma_type("COMPONENT_SET", true), "button");
    assert_eq!(classify_figma_type("FRAME", false), "container");
    assert_eq!(classify_figma_type("GROUP", true), "container");
    assert_eq!(classify_figma_type("SECTION", false), "container");
    assert_eq!(classify_figma_type("STAR", false), "view");
    assert_eq!(classify_figma_type("text", false), "view");
}

#[test]
fn colour_is_upper_case_hex_of_rounded_channels() {
    let c = FigmaColor { r: 1_000_000, g: 0, b: 500_000, a: 1_000_000 };
    // 0.5 * 255 = 127.5 rounds to 128 = 0x80
    assert_eq!(color_hex(&c), "#FF0080");
    let dark = FigmaColor { r: 31_372, g: 160_784, b: 184_313, a: 1_000_000 };
    // 8.0, 41.0, 47.0 after scaling
    assert_eq!(color_hex(&dark), "#08292F");
}

#[test]
fn colour_channels_outside_the_unit_range_saturate() {
    let c = FigmaColor { r: 2_000_000, g: -1_000_000, b: 0, a: 0 };
    assert_eq!(color_hex(&c), "#FF0000");
}

#[test]
fn fill_colour_skips_hidden_and_colourless_paints() {
    let mut hidden = solid(1_000_000, 0, 0);
    hidden.visible = Some(false);
    let fills = Some(vec![hidden, image_paint("abc"), solid(0, 0, 1_000_000)]);
    assert_eq!(extract_fill_color(&fills), Some("#0000FF".to_string()));
    assert_eq!(extract_fill_color(&None), None);
    assert_eq!(extract_fill_color(&Some(vec![image_paint("x")])), None);
}

#[test]
fn weight_names_cover_each_band() {
    assert_eq!(weight_name(100_000_000), "100");
    assert_eq!(weight_name(149_900_000), "100");
    assert_eq!(weight_name(200_000_000), "200");
    assert_eq!(weight_name(300_000_000), "300");
    assert_eq!(weight_name(400_000_000), "400");
    assert_eq!(weight_name(449_000_000), "400");
    assert_eq!(weight_name(500_000_000), "500");
    assert_eq!(weight_name(600_000_000), "600");
    assert_eq!(weight_name(650_000_000), "700");
    assert_eq!(weight_name(700_000_000), "700");
    assert_eq!(weight_name(800_000_000), "800");
    assert_eq!(weight_name(900_000_000), "900");
    assert_eq!(weight_name(1_000_000_000), "900");
    assert_eq!(weight_name(-5_000_000), "100");
}

#[test]
fn slug_joins_alphanumeric_runs() {
    assert_eq!(slugify("Site Name"), "site_name");
    assert_eq!(slugify("  Hello--World!! "), "hello_world");
    assert_eq!(slugify("Example Trail 2"), "example_trail_2");
    assert_eq!(slugify("!!!"), "");
}

#[test]
fn slug_keeps_non_ascii_letters_as_they_are() {
    // Unicode letters count as alphanumeric; only ASCII is lower-cased.
    assert_eq!(slugify("Ünï Çode"), "Ünï_Çode");
}

#[test]
fn slug_has_no_separator_at_the_ends_or_twice() {
    let s = slugify("__a__b__");
    assert_eq!(s, "a_b");
    assert!(!s.starts_with('_') && !s.ends_with('_') && !s.contains("__"));
}

#[test]
fn timestamp_is_iso_8601_utc() {
    assert_eq!(timestamp_at(0), "1970-01-01T00:00:00Z");
    assert_eq!(timestamp_at(1_779_495_300), "2026-05-23T00:15:00Z");
    assert_eq!(timestamp_at(1_780_000_000), "2026-05-28T20:26:40Z");
    assert_eq!(timestamp_at(951_782_400), "2000-02-29T00:00:00Z");
    assert_eq!(timestamp_at(4_102_444_800), "2100-01-01T00:00:00Z");
    assert_eq!(timestamp_at(253_402_300_799), "9999-12-31T23:59:59Z");
}

#[test]
fn current_timestamp_reads_the_clock() {
    let t = chrono_now();
    assert_eq!(t.len(), 20);
    assert!(t.ends_with('Z'));
    assert_eq!(&t[4..5], "-");
    assert_eq!(&t[10..11], "T");
    let year: u32 = t[..4].parse().unwrap();
    assert!(year >= 2024);
}

fn sample_frame() -> FigmaNode {
    let mut root = node("1:1", "Site", "FRAME");
    root.absolute_bounding_box = Some(bbox(100, 200, 200, 100));
    root.fills = Some(vec![solid(1_000_000, 1_000_000, 1_000_000)]);
    root.corner_radius = Some(8_000_000);
    root.padding_top = Some(12_000_000);
    root.padding_left = Some(16_500_000);

    let mut title = node("42:1234", "Title", "TEXT");
    title.characters = Some("Example Trail".to_string());
    title.absolute_bounding_box = Some(bbox(116, 320, 343, 28));
    title.style = Some(TypeStyle {
        font_family: Some("Poppins".to_string()),
        font_weight: Some(600_000_000),
        font_size: Some(20_000_000),
        letter_spacing: None,
        line_height_px: None,
    });
    title.fills = Some(vec![solid(31_372, 160_784, 184_313)]);

    let mut hidden = node("2:2", "Hidden", "TEXT");
    hidden.visible = Some(false);
    hidden.characters = Some("secret".to_string());
    hidden.absolute_bounding_box = Some(bbox(0, 0, 10, 10));

    let mut big = node("3:3", "Background", "GROUP");
    big.absolute_bounding_box = Some(bbox(100, 200, 375, 812));
    let mut inner = node("3:4", "Go", "INSTANCE");
    inner.characters = Some("Go!".to_string());
    inner.absolute_bounding_box = Some(bbox(110, 210, 50, 20));
    big.children = Some(vec![inner]);

    let mut boxless = node("4:4", "Wrapper", "FRAME");
    let mut leaf = node("4:5", "Dot", "ELLIPSE");
    leaf.absolute_bounding_box = Some(bbox(101, 202, 3, 3));
    boxless.children = Some(vec![leaf]);

    root.children = Some(vec![title, hidden, big, boxless]);
    root
}

fn find<'a>(els: &'a [SemanticElement], id: &str) -> &'a SemanticElement {
    els.iter().find(|e| e.id == id).unwrap()
}

#[test]
fn schema_of_a_frame_in_pre_order() {
    let root = sample_frame();
    let mut none: Option<AssetContext> = None;
    let s = extract_schema_at(&root, None, &mut none, 1_000);
    assert_eq!(s.screen, "Site");
    assert_eq!(s.device, "figma");
    assert_eq!(s.platform, "figma");
    assert_eq!(s.timestamp, "1970-01-01T00:16:40Z");
    let ids: Vec<&str> = s.elements.iter().map(|e| e.id.as_str()).collect();
    // hidden node left out, large text-less group left out, boxless wrapper
    // adds nothing but its child is walked
    assert_eq!(ids, vec!["site", "example_trail", "go", "dot"]);

    let title = find(&s.elements, "example_trail");
    assert_eq!(title.elem_type, "text");
    assert_eq!(title.platform_id.as_deref(), Some("42:1234"));
    assert_eq!(title.content.as_deref(), Some("Example Trail"));
    assert_eq!((title.bounds.x, title.bounds.y, title.bounds.w, title.bounds.h), (16, 120, 343, 28));
    let font = title.font.as_ref().unwrap();
    assert_eq!(font.family, "poppins");
    assert_eq!(font.weight, "600");
    assert_eq!(font.size, 20_000_000);
    assert_eq!(title.color.as_deref(), Some("#08292F"));
    assert_eq!(title.background, None);
    assert!(!title.clickable);

    let go = find(&s.elements, "go");
    assert_eq!(go.elem_type, "button");
    assert_eq!((go.bounds.x, go.bounds.y), (10, 10));

    let dot = find(&s.elements, "dot");
    assert_eq!(dot.elem_type, "image");
    assert_eq!((dot.bounds.x, dot.bounds.y), (1, 2));
}

#[test]
fn root_element_sits_at_the_origin() {
    let root = sample_frame();
    let mut none: Option<AssetContext> = None;
    let s = extract_schema_at(&root, None, &mut none, 0);
    let first = &s.elements[0];
    assert_eq!((first.bounds.x, first.bounds.y, first.bounds.w, first.bounds.h), (0, 0, 200, 100));
    assert_eq!(first.elem_type, "container");
    assert_eq!(first.background.as_deref(), Some("#FFFFFF"));
    assert_eq!(first.corner_radius, Some(8_000_000));
    let pad = first.padding.unwrap();
    assert_eq!((pad.top, pad.bottom, pad.start, pad.end), (12, 0, 16, 0));
}

#[test]
fn frame_box_is_the_origin_for_a_root_without_box() {
    let mut root = node("1:1", "Loose", "GROUP");
    let mut leaf = node("1:2", "Label", "TEXT");
    leaf.characters = Some("Hi".to_string());
    leaf.absolute_bounding_box = Some(bbox(50, 70, 10, 10));
    root.children = Some(vec![leaf]);
    let frame = bbox(40, 60, 100, 100);
    let mut none: Option<AssetContext> = None;
    let s = extract_schema_at(&root, Some(&frame), &mut none, 0);
    assert_eq!(s.elements.len(), 1);
    assert_eq!((s.elements[0].bounds.x, s.elements[0].bounds.y), (10, 10));
    let s2 = extract_schema_at(&root, None, &mut none, 0);
    assert_eq!((s2.elements[0].bounds.x, s2.elements[0].bounds.y), (50, 70));
}

#[test]
fn bounds_round_halves_away_from_zero() {
    let mut root = node("1:1", "Root", "RECTANGLE");
    root.absolute_bounding_box = Some(BoundingBox { x: 0, y: 0, width: 2_500_000, height: 1_499_999 });
    let mut leaf = node("1:2", "Leaf", "RECTANGLE");
    leaf.absolute_bounding_box = Some(BoundingBox { x: -2_500_000, y: 2_500_000, width: 0, height: 0 });
    root.children = Some(vec![leaf]);
    let mut none: Option<AssetContext> = None;
    let s = extract_schema_at(&root, None, &mut none, 0);
    assert_eq!((s.elements[0].bounds.w, s.elements[0].bounds.h), (3, 1));
    assert_eq!((s.elements[1].bounds.x, s.elements[1].bounds.y), (-3, 3));
}

#[test]
fn schema_at_the_current_time_has_a_timestamp() {
    let root = sample_frame();
    let s = extract_schema(&root, None);
    assert!(s.timestamp.ends_with('Z'));
    assert_eq!(s.elements.len(), 4);
}

#[test]
fn vectors_are_queued_as_svg_and_image_fills_recorded() {
    let mut root = node("1:1", "Screen", "FRAME");
    root.absolute_bounding_box = Some(bbox(0, 0, 100, 100));
    let mut arrow = node("5:1", "Arrow Back", "VECTOR");
    arrow.absolute_bounding_box = Some(bbox(10, 10, 24, 24));
    arrow.fills = Some(vec![solid(0, 0, 0)]);
    arrow.fill_geometry = Some(vec![VectorPath { path: "M0 0L24 24".to_string(), winding_rule: Some("EVENODD".to_string()) }]);
    let mut photo = node("6:2", "Photo", "RECTANGLE");
    photo.absolute_bounding_box = Some(bbox(0, 40, 50, 50));
    photo.fills = Some(vec![image_paint("hash1")]);
    let mut bare = node("7:3", "Bare", "STAR");
    bare.absolute_bounding_box = Some(bbox(0, 0, 5, 5));
    root.children = Some(vec![arrow, photo, bare]);

    let mut ctx = Some(AssetContext::new("/tmp/assets".to_string()));
    let s = extract_schema_at(&root, None, &mut ctx, 0);
    let ctx = ctx.unwrap();
    assert_eq!(ctx.dir, "/tmp/assets");
    assert_eq!(ctx.svg_files.len(), 1);
    assert_eq!(ctx.svg_files[0].file_name, "arrow_back.svg");
    assert_eq!(ctx.svg_files[0].element_index, Some(1));
    assert!(ctx.svg_files[0].content.contains("fill-rule=\"evenodd\""));
    assert_eq!(ctx.image_refs, vec![("6:2".to_string(), "hash1".to_string())]);
    assert_eq!(s.elements[1].image_path.as_deref(), Some("assets/arrow_back.svg"));
    assert_eq!(s.elements[2].image_path.as_deref(), Some("assets/6:2.png"));
    assert_eq!(s.elements[3].image_path, None);
}

#[test]
fn svg_document_lists_fill_then_stroke_outlines() {
    let mut icon = node("5:1", "Icon", "VECTOR");
    icon.fills = Some(vec![solid(1_000_000, 0, 0)]);
    icon.fill_geometry = Some(vec![VectorPath { path: "M0 0".to_string(), winding_rule: None }]);
    icon.stroke_geometry = Some(vec![VectorPath { path: "M1 1".to_string(), winding_rule: Some("NONZERO".to_string()) }]);
    let b = BoundingBox { x: 0, y: 0, width: 24_000_000, height: 12_500_000 };
    assert_eq!(
        svg_document(&icon, &b),
        "<svg xmlns=\"http://www.w3.org/2000/svg\" width=\"24\" height=\"12.5\" viewBox=\"0 0 24 12.5\">\
<path d=\"M0 0\" fill=\"#FF0000\" fill-rule=\"nonzero\"/>\
<path d=\"M1 1\" fill=\"none\" stroke=\"#000000\"/></svg>"
    );
}

#[test]
fn a_vector_without_outlines_gives_no_file() {
    let mut ctx = AssetContext::new("d".to_string());
    let v = node("1:1", "V", "VECTOR");
    let r = ctx.save_svg("v", &v, &bbox(0, 0, 1, 1), Some(0));
    assert_eq!(r, None);
    assert!(ctx.svg_files.is_empty());
}

#[test]
fn record_image_ref_takes_the_first_visible_image_paint() {
    let mut ctx = AssetContext::new("d".to_string());
    let mut hidden = image_paint("h0");
    hidden.visible = Some(false);
    let fills = Some(vec![hidden, solid(0, 0, 0), image_paint("h1"), image_paint("h2")]);
    let r = ctx.record_image_ref("9:9", &fills);
    assert_eq!(r.as_deref(), Some("assets/9:9.png"));
    assert_eq!(ctx.image_refs, vec![("9:9".to_string(), "h1".to_string())]);
    assert_eq!(ctx.record_image_ref("9:9", &None), None);
}

#[test]
fn walk_appends_to_existing_elements() {
    let root = sample_frame();
    let mut elements = Vec::new();
    let mut none: Option<AssetContext> = None;
    walk_node(&root, 100_000_000, 200_000_000, &mut elements, &mut none);
    let n = elements.len();
    walk_node(&root, 100_000_000, 200_000_000, &mut elements, &mut none);
    assert_eq!(elements.len(), 2 * n);
    assert_eq!(elements[0].id, elements[n].id);
}

#[test]
fn hidden_root_adds_nothing() {
    let mut root = sample_frame();
    root.visible = Some(false);
    let mut none: Option<AssetContext> = None;
    let s = extract_schema_at(&root, None, &mut none, 0);
    assert!(s.elements.is_empty());
}

#[test]
fn deep_copy_keeps_the_tree() {
    let root = sample_frame();
    let copy = root.deep_copy();
    let mut none: Option<AssetContext> = None;
    let a = extract_schema_at(&root, None, &mut none, 5);
    let b = extract_schema_at(&copy, None, &mut none, 5);
    let ia: Vec<&String> = a.elements.iter().map(|e| &e.id).collect();
    let ib: Vec<&String> = b.elements.iter().map(|e| &e.id).collect();
    assert_eq!(ia, ib);
    assert_eq!(copy.children.as_ref().unwrap().len(), 4);
}

#[test]
fn unicode_letters_and_digits_stay_in_slugs() {
    // Arabic-Indic digit three and accented letters are alphanumeric.
    assert_eq!(slugify("Ünï٣ x-y"), "Ünï٣_x_y");
    assert_eq!(slugify("a\u{00A0}b"), "a_b");
}

#[test]
fn font_family_is_lower_cased_in_full() {
    let mut t = node("1:1", "T", "TEXT");
    t.characters = Some("x".to_string());
    t.absolute_bounding_box = Some(bbox(0, 0, 1, 1));
    t.style = Some(TypeStyle {
        font_family: Some("PoppINS Ü".to_string()),
        font_weight: None,
        font_size: None,
        letter_spacing: None,
        line_height_px: None,
    });
    let mut none: Option<AssetContext> = None;
    let s = extract_schema_at(&t, None, &mut none, 0);
    let font = s.elements[0].font.as_ref().unwrap();
    assert_eq!(font.family, "poppins ü");
    assert_eq!(font.weight, "400");
    assert_eq!(font.size, 0);
}

#[test]
fn an_instance_holding_text_is_a_button() {
    let mut button = node("3:1", "Primary Button", "INSTANCE");
    button.absolute_bounding_box = Some(bbox(0, 0, 120, 40));
    let mut label = node("3:2", "Label", "TEXT");
    label.characters = Some("OK".to_string());
    label.absolute_bounding_box = Some(bbox(10, 10, 20, 20));
    button.children = Some(vec![label]);
    let mut elements = Vec::new();
    let mut none: Option<AssetContext> = None;
    walk_node(&button, 0, 0, &mut elements, &mut none);
    assert_eq!(elements.len(), 2);
    assert_eq!(elements[0].id, "primary_button");
    assert_eq!(elements[0].elem_type, "button");
    assert_eq!(elements[0].content, None);
    assert_eq!(elements[1].elem_type, "text");
}

#[test]
fn an_instance_without_text_below_is_a_container() {
    let mut card = node("4:1", "Card", "COMPONENT");
    card.absolute_bounding_box = Some(bbox(0, 0, 120, 40));
    let mut inner = node("4:2", "Inner", "FRAME");
    let mut dot = node("4:3", "Dot", "ELLIPSE");
    dot.absolute_bounding_box = Some(bbox(1, 1, 2, 2));
    inner.children = Some(vec![dot]);
    card.children = Some(vec![inner]);
    let mut elements = Vec::new();
    let mut none: Option<AssetContext> = None;
    walk_node(&card, 0, 0, &mut elements, &mut none);
    assert_eq!(elements[0].elem_type, "container");
}

#[test]
fn image_fills_are_recorded_in_pre_order_even_when_left_out() {
    let mut root = node("1:1", "Screen", "FRAME");
    root.absolute_bounding_box = Some(bbox(0, 0, 100, 100));
    let mut big = node("2:1", "Backdrop", "FRAME");
    big.absolute_bounding_box = Some(bbox(0, 0, 400, 400));
    big.fills = Some(vec![image_paint("hb")]);
    let mut small = node("2:2", "Thumb", "RECTANGLE");
    small.absolute_bounding_box = Some(bbox(0, 0, 10, 10));
    small.fills = Some(vec![image_paint("hs")]);
    big.children = Some(vec![small]);
    let mut later = node("3:1", "Later", "RECTANGLE");
    later.absolute_bounding_box = Some(bbox(0, 0, 10, 10));
    later.fills = Some(vec![image_paint("hl")]);
    root.children = Some(vec![big, later]);
    let mut ctx = Some(AssetContext::new("d".to_string()));
    let s = extract_schema_at(&root, None, &mut ctx, 0);
    let refs: Vec<(String, String)> = ctx.unwrap().image_refs;
    assert_eq!(
        refs,
        vec![
            ("2:1".to_string(), "hb".to_string()),
            ("2:2".to_string(), "hs".to_string()),
            ("3:1".to_string(), "hl".to_string()),
        ]
    );
    // the backdrop is a large container without text and is left out
    assert_eq!(s.elements.len(), 3);
}

#[test]
fn a_slug_is_its_own_slug() {
    for s in ["Site Name", "  Hello--World!! ", "Ünï Çode", "__a__b__", "Arrow Back 2", ""] {
        let once = slugify(s);
        assert_eq!(slugify(&once), once);
    }
}

#[test]
fn without_assets_elements_are_flat_and_refer_to_no_file() {
    let mut root = node("1:1", "Screen", "FRAME");
    root.absolute_bounding_box = Some(bbox(0, 0, 100, 100));
    let mut photo = node("6:2", "Photo", "RECTANGLE");
    photo.absolute_bounding_box = Some(bbox(0, 40, 50, 50));
    photo.fills = Some(vec![image_paint("hash1")]);
    let mut arrow = node("5:1", "Arrow", "VECTOR");
    arrow.absolute_bounding_box = Some(bbox(10, 10, 24, 24));
    arrow.fill_geometry = Some(vec![VectorPath { path: "M0 0".to_string(), winding_rule: None }]);
    root.children = Some(vec![photo, arrow]);
    let s = extract_schema(&root, None);
    assert_eq!(s.elements.len(), 3);
    for e in &s.elements {
        assert!(e.children.is_none());
        assert!(e.image_path.is_none());
    }
}
