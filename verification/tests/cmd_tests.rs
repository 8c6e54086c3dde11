use fdb::cmd::{
    collect_secret_tokens, find_frame, run, Cli, Command, ConvertArgs, EmitResult, RunAction,
    RunEvent, RunStep, Runner, UiArgs,
};
use fdb::figma::{BoundingBox, FigmaNode, FileNodesResponse, NodeWrapper, Paint, VectorPath};
use fdb::kiwi::{KiwiDocument, KiwiGuid, KiwiNode, KiwiParentIndex};

fn node(id: &str, name: &str, node_type: &str) -> FigmaNode {
    FigmaNode {
        id: id.to_string(),
        name: name.to_string(),
        node_type: node_type.to_string(),
        visible: None,
        characters: None,
        style: None,
        fills: None,
        strokes: None,
        corner_radius: None,
        absolute_bounding_box: None,
        padding_left: None,
        padding_right: None,
        padding_top: None,
        padding_bottom: None,
        item_spacing: None,
        fill_geometry: None,
        stroke_geometry: None,
        children: None,
        component_id: None,
    }
}

fn bbox(x: i64, y: i64, w: i64, h: i64) -> BoundingBox {
    BoundingBox { x: x * 1_000_000, y: y * 1_000_000, width: w * 1_000_000, height: h * 1_000_000 }
}

fn ui(token: Option<&str>, output: Option<&str>) -> Cli {
    Cli {
        command: Command::Ui(UiArgs {
            semantic: true,
            file: "FILEKEY".to_string(),
            node: "1:2".to_string(),
            output: output.map(|s| s.to_string()),
            token: token.map(|s| s.to_string()),
        }),
    }
}

fn convert(input: &str) -> ConvertArgs {
    ConvertArgs {
        input: input.to_string(),
        output: None,
        screen: None,
        dump_assets: None,
        file_key: None,
        token: None,
        kiwi: false,
        frame: None,
    }
}

fn convert_cli(a: ConvertArgs) -> Cli {
    Cli { command: Command::Convert(a) }
}

fn finish_err(step: &RunStep) -> String {
    match &step.action {
        RunAction::Finish(Err(e)) => e.clone(),
        _ => panic!("expected a failure"),
    }
}

fn is_finish_ok(step: &RunStep) -> bool {
    matches!(step.action, RunAction::Finish(Ok(())))
}

fn fetch_token(step: &RunStep) -> String {
    match &step.action {
        RunAction::FetchNodes { token, file, node } => {
            assert_eq!(file, "FILEKEY");
            assert_eq!(node, "1:2");
            token.clone()
        },
        _ => panic!("expected a fetch"),
    }
}

fn small_tree() -> FigmaNode {
    let mut root = node("1:2", "Site", "FRAME");
    root.absolute_bounding_box = Some(bbox(0, 0, 100, 100));
    let mut t = node("1:3", "Title", "TEXT");
    t.characters = Some("Hello".to_string());
    t.absolute_bounding_box = Some(bbox(10, 10, 50, 20));
    root.children = Some(vec![t]);
    root
}

fn response(nodes: Vec<FigmaNode>) -> FileNodesResponse {
    FileNodesResponse {
        nodes: nodes.into_iter().map(|n| (n.id.clone(), NodeWrapper { document: n })).collect(),
    }
}

fn emitted_schema(step: RunStep) -> fdb::schema::SemanticSchema {
    match step.action {
        RunAction::Emit { schema, .. } => schema,
        _ => panic!("expected the schema to be written out"),
    }
}

// ----------------------------------------------------------------- frames

#[test]
fn frame_is_found_ignoring_case() {
    let mut root = node("0:0", "Document", "DOCUMENT");
    let mut page = node("0:1", "Page", "CANVAS");
    let group = node("0:2", "Site", "GROUP");
    let site = node("0:3", "Site", "FRAME");
    let home = node("0:4", "Home", "INSTANCE");
    page.children = Some(vec![group, site, home]);
    root.children = Some(vec![page]);
    assert_eq!(find_frame(&root, "site").unwrap().id, "0:3");
    assert_eq!(find_frame(&root, "HOME").unwrap().id, "0:4");
    assert!(find_frame(&root, "Missing").is_none());
    assert!(find_frame(&root, "Page").is_none());
}

#[test]
fn frame_search_takes_the_first_in_pre_order() {
    let mut outer = node("1:0", "card", "COMPONENT");
    let inner = node("1:1", "Card", "FRAME");
    outer.children = Some(vec![inner]);
    assert_eq!(find_frame(&outer, "CARD").unwrap().id, "1:0");
}

// ----------------------------------------------------------------- secrets

#[test]
fn secrets_add_trimmed_tokens_once() {
    let mut tokens = vec!["env-token".to_string()];
    let content = "# comment\nFIGMA_TOKEN= abc \r\nOTHER=1\nFIGMA_TOKEN_2=\tdef\nFIGMA_TOKEN=abc\nFIGMA_TOKEN=env-token\nFIGMA_TOKEN=last";
    collect_secret_tokens(&mut tokens, content);
    assert_eq!(tokens, vec!["env-token", "abc", "def", "last"]);
}

#[test]
fn secrets_trim_unicode_white_space() {
    let mut tokens: Vec<String> = Vec::new();
    collect_secret_tokens(&mut tokens, "FIGMA_TOKEN=\u{00A0}\u{3000}tok\u{2009}\n");
    assert_eq!(tokens, vec!["tok"]);
}

#[test]
fn secrets_without_tokens_change_nothing() {
    let mut tokens: Vec<String> = Vec::new();
    collect_secret_tokens(&mut tokens, "");
    assert!(tokens.is_empty());
    collect_secret_tokens(&mut tokens, "figma_token=lower\n FIGMA_TOKEN=indented\n");
    assert!(tokens.is_empty());
}

#[test]
fn secrets_token_prefix_is_exact() {
    let mut tokens: Vec<String> = Vec::new();
    collect_secret_tokens(&mut tokens, "FIGMA_TOKEN_2=two\nFIGMA_TOKEN=\n");
    assert_eq!(tokens, vec!["two", ""]);
}

// ----------------------------------------------------------------- ui

#[test]
fn ui_with_token_flag_fetches_at_once() {
    let (_, step) = run(ui(Some("t-flag"), None));
    assert_eq!(fetch_token(&step), "t-flag");
    assert!(step.log.is_none());
}

#[test]
fn ui_without_tokens_fails() {
    let (mut r, step) = run(ui(None, None));
    assert!(matches!(step.action, RunAction::LoadTokens));
    let step = r.step_at(RunEvent::Tokens(vec![]), 0);
    assert_eq!(finish_err(&step), "no Figma token. set FIGMA_TOKEN env, --token flag, or add to secrets.properties");
}

#[test]
fn ui_rotates_tokens_and_writes_the_schema() {
    let (mut r, _) = run(ui(None, Some("out.yaml")));
    let step = r.step_at(RunEvent::Tokens(vec!["a".to_string(), "b".to_string(), "c".to_string()]), 0);
    assert_eq!(fetch_token(&step), "a");
    let step = r.step_at(RunEvent::Nodes(Err("figma api 429 Too Many Requests: slow".to_string())), 0);
    assert_eq!(step.log.as_deref(), Some("token 1 rate limited, trying next"));
    assert_eq!(fetch_token(&step), "b");
    let step = r.step_at(RunEvent::Nodes(Err("figma api error: offline".to_string())), 0);
    assert_eq!(step.log, None);
    assert_eq!(fetch_token(&step), "c");
    let step = r.step_at(RunEvent::Nodes(Ok(response(vec![small_tree()]))), 77);
    let (schema, output) = match step.action {
        RunAction::Emit { schema, output } => (schema, output),
        _ => panic!("expected the schema"),
    };
    assert_eq!(output.as_deref(), Some("out.yaml"));
    assert_eq!(schema.screen, "Site");
    assert_eq!(schema.timestamp, "1970-01-01T00:01:17Z");
    assert_eq!(schema.elements.len(), 2);
    let step = r.step_at(RunEvent::Emitted(EmitResult::Written), 0);
    assert!(is_finish_ok(&step));
    assert_eq!(step.log.as_deref(), Some("wrote out.yaml"));
}

#[test]
fn ui_last_token_error_is_the_result() {
    let (mut r, _) = run(ui(None, None));
    r.step_at(RunEvent::Tokens(vec!["a".to_string(), "b".to_string()]), 0);
    r.step_at(RunEvent::Nodes(Err("first".to_string())), 0);
    let step = r.step_at(RunEvent::Nodes(Err("figma api 429 Too Many Requests: ".to_string())), 0);
    assert!(step.log.is_none());
    assert_eq!(finish_err(&step), "figma api 429 Too Many Requests: ");
}

#[test]
fn ui_with_empty_response_fails() {
    let (mut r, _) = run(ui(Some("t"), None));
    let step = r.step_at(RunEvent::Nodes(Ok(response(vec![]))), 0);
    assert_eq!(finish_err(&step), "no nodes returned from Figma API");
}

#[test]
fn printing_the_schema_ends_quietly() {
    let (mut r, _) = run(ui(Some("t"), None));
    r.step_at(RunEvent::Nodes(Ok(response(vec![small_tree()]))), 0);
    let step = r.step_at(RunEvent::Emitted(EmitResult::Printed), 0);
    assert!(is_finish_ok(&step));
    assert!(step.log.is_none());
}

#[test]
fn output_errors_are_reported() {
    let (mut r, _) = run(ui(Some("t"), None));
    r.step_at(RunEvent::Nodes(Ok(response(vec![small_tree()]))), 0);
    let step = r.step_at(RunEvent::Emitted(EmitResult::YamlFailed("bad".to_string())), 0);
    assert_eq!(finish_err(&step), "yaml error: bad");

    let (mut r, _) = run(ui(Some("t"), Some("/nope/out.yaml")));
    r.step_at(RunEvent::Nodes(Ok(response(vec![small_tree()]))), 0);
    let step = r.step_at(RunEvent::Emitted(EmitResult::WriteFailed("denied".to_string())), 0);
    assert_eq!(finish_err(&step), "write error: denied");
}

#[test]
fn step_with_the_clock_sets_a_timestamp() {
    let (mut r, _) = run(ui(Some("t"), None));
    let step = r.step(RunEvent::Nodes(Ok(response(vec![small_tree()]))));
    let schema = emitted_schema(step);
    assert!(schema.timestamp.ends_with('Z'));
    assert!(schema.timestamp.len() > 5);
}

// ----------------------------------------------------------------- convert

#[test]
fn convert_reads_stdin_or_a_file() {
    let (_, step) = run(convert_cli(convert("-")));
    assert!(matches!(step.action, RunAction::ReadInput { stdin: true, .. }));
    let (mut r, step) = run(convert_cli(convert("in.json")));
    match &step.action {
        RunAction::ReadInput { path, stdin } => {
            assert_eq!(path, "in.json");
            assert!(!stdin);
        },
        _ => panic!("expected a read"),
    }
    let step = r.step_at(RunEvent::Input(Err("No such file".to_string())), 0);
    assert_eq!(finish_err(&step), "read in.json: No such file");

    let (mut r, _) = run(convert_cli(convert("-")));
    let step = r.step_at(RunEvent::Input(Err("closed".to_string())), 0);
    assert_eq!(finish_err(&step), "stdin read error: closed");
}

#[test]
fn convert_tries_a_response_then_a_bare_node() {
    let (mut r, _) = run(convert_cli(convert("-")));
    let step = r.step_at(RunEvent::Input(Ok("{json}".to_string())), 0);
    match &step.action {
        RunAction::ParseNodesResponse { json } => assert_eq!(json, "{json}"),
        _ => panic!("expected a response parse"),
    }
    let step = r.step_at(RunEvent::NodesResponse(None), 0);
    match &step.action {
        RunAction::ParseNode { json } => assert_eq!(json, "{json}"),
        _ => panic!("expected a node parse"),
    }
    let step = r.step_at(RunEvent::Node(Err("eof".to_string())), 0);
    assert_eq!(finish_err(&step), "JSON is neither FileNodesResponse nor FigmaNode: eof");
}

#[test]
fn convert_of_a_response_uses_its_first_node() {
    let (mut r, _) = run(convert_cli(convert("r.json")));
    r.step_at(RunEvent::Input(Ok("{}".to_string())), 0);
    let step = r.step_at(RunEvent::NodesResponse(Some(response(vec![small_tree()]))), 3);
    let schema = emitted_schema(step);
    assert_eq!(schema.screen, "Site");
    assert_eq!(schema.elements[1].id, "hello");

    let (mut r, _) = run(convert_cli(convert("r.json")));
    r.step_at(RunEvent::Input(Ok("{}".to_string())), 0);
    let step = r.step_at(RunEvent::NodesResponse(Some(response(vec![]))), 0);
    assert_eq!(finish_err(&step), "no nodes in FileNodesResponse");
}

#[test]
fn screen_flag_renames_the_schema() {
    let mut a = convert("-");
    a.screen = Some("HomeScreen".to_string());
    let (mut r, _) = run(convert_cli(a));
    r.step_at(RunEvent::Input(Ok("{}".to_string())), 0);
    r.step_at(RunEvent::NodesResponse(None), 0);
    let schema = emitted_schema(r.step_at(RunEvent::Node(Ok(small_tree())), 9));
    assert_eq!(schema.screen, "HomeScreen");
    assert_eq!(schema.timestamp, "1970-01-01T00:00:09Z");
    assert_eq!(schema.elements.len(), 2);
}

fn kiwi_record(g: (i64, i64), parent: Option<(i64, i64)>, node_type: &str, name: &str) -> KiwiNode {
    KiwiNode {
        guid: KiwiGuid { session_id: g.0, local_id: g.1 },
        node_type: Some(node_type.to_string()),
        name: Some(name.to_string()),
        visible: None,
        opacity: None,
        transform: None,
        size: None,
        parent_index: parent.map(|p| KiwiParentIndex { guid: KiwiGuid { session_id: p.0, local_id: p.1 }, position: None }),
        fill_paints: None,
        stroke_paints: None,
        font_name: None,
        font_size: None,
        text_data: None,
        derived_text_data: None,
        corner_radius: None,
        padding_left: None,
        padding_right: None,
        padding_top: None,
        padding_bottom: None,
        fill_geometry: None,
        stroke_geometry: None,
    }
}

fn kiwi_doc() -> KiwiDocument {
    KiwiDocument {
        doc_type: None,
        node_changes: vec![
            kiwi_record((0, 0), None, "DOCUMENT", "Document"),
            kiwi_record((0, 1), Some((0, 0)), "CANVAS", "Page"),
            kiwi_record((1, 1), Some((0, 1)), "FRAME", "Site"),
        ],
    }
}

fn kiwi_args(frame: Option<&str>) -> ConvertArgs {
    let mut a = convert("scene.json");
    a.kiwi = true;
    a.frame = frame.map(|s| s.to_string());
    a
}

#[test]
fn kiwi_capture_is_narrowed_to_the_frame() {
    let (mut r, _) = run(convert_cli(kiwi_args(Some("SITE"))));
    let step = r.step_at(RunEvent::Input(Ok("{}".to_string())), 0);
    assert!(matches!(step.action, RunAction::ParseKiwi { .. }));
    let step = r.step_at(RunEvent::Kiwi(Ok(kiwi_doc())), 0);
    assert_eq!(step.log.as_deref(), Some("3 nodeChanges parsed"));
    let schema = emitted_schema(step);
    assert_eq!(schema.screen, "Site");
}

#[test]
fn kiwi_frame_not_found() {
    let (mut r, _) = run(convert_cli(kiwi_args(Some("Nowhere"))));
    r.step_at(RunEvent::Input(Ok("{}".to_string())), 0);
    let step = r.step_at(RunEvent::Kiwi(Ok(kiwi_doc())), 0);
    assert_eq!(step.log.as_deref(), Some("3 nodeChanges parsed"));
    assert_eq!(finish_err(&step), "frame 'Nowhere' not found in kiwi tree");
}

#[test]
fn kiwi_parse_error_and_empty_capture() {
    let (mut r, _) = run(convert_cli(kiwi_args(None)));
    r.step_at(RunEvent::Input(Ok("{}".to_string())), 0);
    let step = r.step_at(RunEvent::Kiwi(Err("missing field".to_string())), 0);
    assert_eq!(finish_err(&step), "kiwi parse error: missing field");

    let (mut r, _) = run(convert_cli(kiwi_args(None)));
    r.step_at(RunEvent::Input(Ok("{}".to_string())), 0);
    let step = r.step_at(RunEvent::Kiwi(Ok(KiwiDocument { doc_type: None, node_changes: vec![] })), 0);
    assert_eq!(step.log.as_deref(), Some("0 nodeChanges parsed"));
    assert!(matches!(step.action, RunAction::Abort(_)));
}

fn asset_tree() -> FigmaNode {
    let mut root = node("1:1", "Screen", "FRAME");
    root.absolute_bounding_box = Some(bbox(0, 0, 100, 100));
    let mut icon = node("2:1", "Back", "VECTOR");
    icon.absolute_bounding_box = Some(bbox(1, 1, 24, 24));
    icon.fill_geometry = Some(vec![VectorPath { path: "M0 0".to_string(), winding_rule: None }]);
    let mut photo = node("3:1", "Photo", "RECTANGLE");
    photo.absolute_bounding_box = Some(bbox(0, 30, 50, 50));
    photo.fills = Some(vec![Paint {
        paint_type: Some("IMAGE".to_string()),
        color: None,
        visible: None,
        opacity: None,
        image_ref: Some("h".to_string()),
    }]);
    root.children = Some(vec![icon, photo]);
    root
}

fn start_asset_run(a: ConvertArgs) -> Runner {
    let (mut r, _) = run(convert_cli(a));
    r.step_at(RunEvent::Input(Ok("{}".to_string())), 0);
    r.step_at(RunEvent::NodesResponse(None), 0);
    let step = r.step_at(RunEvent::Node(Ok(asset_tree())), 0);
    match &step.action {
        RunAction::CreateDir { dir } => assert_eq!(dir, "out"),
        _ => panic!("expected the asset directory"),
    }
    let step = r.step_at(RunEvent::Continue, 0);
    match &step.action {
        RunAction::WriteAsset { dir, file_name, content } => {
            assert_eq!(dir, "out");
            assert_eq!(file_name, "back.svg");
            assert!(content.starts_with("<svg "));
        },
        _ => panic!("expected an SVG write"),
    }
    r
}

#[test]
fn failed_svg_write_leaves_the_element_without_asset() {
    let mut a = convert("-");
    a.dump_assets = Some("out".to_string());
    let mut r = start_asset_run(a);
    let step = r.step_at(RunEvent::Written(false), 0);
    assert!(matches!(step.action, RunAction::LoadTokens));
    let step = r.step_at(RunEvent::Tokens(vec!["t".to_string()]), 0);
    assert_eq!(step.log.as_deref(), Some("1 image refs collected but no --file-key provided for REST fetch"));
    match &step.action {
        RunAction::CountSvgs { dir } => assert_eq!(dir, "out"),
        _ => panic!("expected the SVG count"),
    }
    let step = r.step_at(RunEvent::Count(0), 0);
    assert!(step.log.is_none());
    let schema = emitted_schema(step);
    assert_eq!(schema.elements[1].image_path, None);
    assert_eq!(schema.elements[2].image_path.as_deref(), Some("assets/3:1.png"));
}

#[test]
fn renders_are_fetched_with_each_token_in_turn() {
    let mut a = convert("-");
    a.dump_assets = Some("out".to_string());
    a.file_key = Some("KEY".to_string());
    let mut r = start_asset_run(a);
    let step = r.step_at(RunEvent::Written(true), 0);
    assert!(matches!(step.action, RunAction::LoadTokens));
    let step = r.step_at(RunEvent::Tokens(vec!["t1".to_string(), "t2".to_string()]), 0);
    match &step.action {
        RunAction::FetchImages { token, file_key, refs, dir } => {
            assert_eq!(token, "t1");
            assert_eq!(file_key, "KEY");
            assert_eq!(refs, &vec![("3:1".to_string(), "h".to_string())]);
            assert_eq!(dir, "out");
        },
        _ => panic!("expected a render fetch"),
    }
    let step = r.step_at(RunEvent::Images(Err("figma images api 403 Forbidden".to_string())), 0);
    assert_eq!(step.log.as_deref(), Some("image fetch error: figma images api 403 Forbidden"));
    match &step.action {
        RunAction::FetchImages { token, .. } => assert_eq!(token, "t2"),
        _ => panic!("expected a second render fetch"),
    }
    let step = r.step_at(RunEvent::Images(Ok(1)), 0);
    assert_eq!(step.log.as_deref(), Some("1 images fetched to out"));
    let step = r.step_at(RunEvent::Count(1), 0);
    assert_eq!(step.log.as_deref(), Some("1 SVGs saved to out"));
    let schema = emitted_schema(step);
    assert_eq!(schema.elements[1].image_path.as_deref(), Some("assets/back.svg"));
}

#[test]
fn token_flag_is_used_for_renders() {
    let mut a = convert("-");
    a.dump_assets = Some("out".to_string());
    a.file_key = Some("KEY".to_string());
    a.token = Some("flag".to_string());
    let mut r = start_asset_run(a);
    let step = r.step_at(RunEvent::Written(true), 0);
    match &step.action {
        RunAction::FetchImages { token, .. } => assert_eq!(token, "flag"),
        _ => panic!("expected a render fetch"),
    }
    let step = r.step_at(RunEvent::Images(Err("x".to_string())), 0);
    assert_eq!(step.log.as_deref(), Some("image fetch error: x"));
    assert!(matches!(step.action, RunAction::CountSvgs { .. }));
}

#[test]
fn no_tokens_for_renders_skips_the_fetch() {
    let mut a = convert("-");
    a.dump_assets = Some("out".to_string());
    a.file_key = Some("KEY".to_string());
    let mut r = start_asset_run(a);
    r.step_at(RunEvent::Written(true), 0);
    let step = r.step_at(RunEvent::Tokens(vec![]), 0);
    assert!(step.log.is_none());
    assert!(matches!(step.action, RunAction::CountSvgs { .. }));
}
