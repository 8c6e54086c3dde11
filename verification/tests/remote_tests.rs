use fdb::remote::{
    file_url, image_file_name, images_url, last_modified_result, nodes_url, FetchAction,
    FetchEvent, FetchOutcome, FetchStep, HttpReply, ImageAction, ImageEvent, ImageFetch,
    ImagesReply, MetaReply, NodeFetch,
};

fn start() -> NodeFetch {
    let (f, step) = NodeFetch::start("tok".to_string(), "KEY".to_string(), "1:2".to_string());
    assert!(matches!(step.action, FetchAction::CheckCache));
    f
}

fn is_request(step: &FetchStep) -> bool {
    match &step.action {
        FetchAction::Request { url, token } => {
            assert_eq!(url, "https://api.figma.com/v1/files/KEY/nodes?ids=1:2");
            assert_eq!(token, "tok");
            true
        },
        _ => false,
    }
}

fn is_metadata_request(step: &FetchStep) -> bool {
    match &step.action {
        FetchAction::CheckLastModified { url, token } => {
            assert_eq!(url, "https://api.figma.com/v1/files/KEY");
            assert_eq!(token, "tok");
            true
        },
        _ => false,
    }
}

fn failure(step: &FetchStep) -> String {
    match &step.action {
        FetchAction::Finish(FetchOutcome::Failed(e)) => e.clone(),
        _ => panic!("expected a failure"),
    }
}

fn reply(success: bool, rate_limited: bool, status: &str, body: Result<&str, &str>) -> FetchEvent {
    FetchEvent::Response(HttpReply::Received {
        success,
        rate_limited,
        status: status.to_string(),
        body: body.map(|s| s.to_string()).map_err(|s| s.to_string()),
    })
}

#[test]
fn request_addresses() {
    assert_eq!(nodes_url("abc", "12:34"), "https://api.figma.com/v1/files/abc/nodes?ids=12:34");
    assert_eq!(file_url("abc"), "https://api.figma.com/v1/files/abc");
    let refs = vec![("1:2".to_string(), "h1".to_string()), ("3:4".to_string(), "h2".to_string())];
    assert_eq!(images_url("abc", &refs), "https://api.figma.com/v1/images/abc?ids=1:2,3:4&format=png&scale=2");
    assert_eq!(images_url("abc", &vec![]), "https://api.figma.com/v1/images/abc?ids=&format=png&scale=2");
}

#[test]
fn render_files_are_named_by_node_id() {
    assert_eq!(image_file_name("12:7"), "12:7.png");
    assert_eq!(image_file_name("plain"), "plain.png");
}

#[test]
fn without_cache_the_nodes_are_requested() {
    let mut f = start();
    let step = f.step(FetchEvent::CacheExists(false));
    assert!(step.log.is_none());
    assert!(is_request(&step));
}

#[test]
fn unchanged_file_is_served_from_cache() {
    let mut f = start();
    assert!(is_metadata_request(&f.step(FetchEvent::CacheExists(true))));
    let step = f.step(FetchEvent::LastModified(Ok("2026-01-01T00:00:00Z".to_string())));
    assert!(matches!(step.action, FetchAction::ReadCachedMeta));
    let step = f.step(FetchEvent::CachedMeta(Some("2026-01-01T00:00:00Z".to_string())));
    assert_eq!(step.log.as_deref(), Some("cache hit (lastModified unchanged)"));
    assert!(matches!(step.action, FetchAction::ReadCachedResponse));
    let step = f.step(FetchEvent::CachedResponse(true));
    assert!(matches!(step.action, FetchAction::Finish(FetchOutcome::Cached)));
}

#[test]
fn unreadable_cache_after_a_hit_is_refetched() {
    let mut f = start();
    f.step(FetchEvent::CacheExists(true));
    f.step(FetchEvent::LastModified(Ok("m".to_string())));
    f.step(FetchEvent::CachedMeta(Some("m".to_string())));
    let step = f.step(FetchEvent::CachedResponse(false));
    assert_eq!(step.log.as_deref(), Some("cache stale (lastModified changed)"));
    assert!(is_request(&step));
}

#[test]
fn changed_file_is_refetched() {
    let mut f = start();
    f.step(FetchEvent::CacheExists(true));
    f.step(FetchEvent::LastModified(Ok("new".to_string())));
    let step = f.step(FetchEvent::CachedMeta(Some("old".to_string())));
    assert_eq!(step.log.as_deref(), Some("cache stale (lastModified changed)"));
    assert!(is_request(&step));

    let mut f = start();
    f.step(FetchEvent::CacheExists(true));
    f.step(FetchEvent::LastModified(Ok("new".to_string())));
    let step = f.step(FetchEvent::CachedMeta(None));
    assert_eq!(step.log.as_deref(), Some("cache stale (lastModified changed)"));
    assert!(is_request(&step));
}

#[test]
fn metadata_failure_falls_back_on_the_cache() {
    let mut f = start();
    f.step(FetchEvent::CacheExists(true));
    let step = f.step(FetchEvent::LastModified(Err("figma metadata 429 Too Many Requests".to_string())));
    assert_eq!(
        step.log.as_deref(),
        Some("metadata check failed: figma metadata 429 Too Many Requests \u{2014} using cache")
    );
    assert!(matches!(step.action, FetchAction::ReadCachedResponse));
    let step = f.step(FetchEvent::CachedResponse(true));
    assert!(matches!(step.action, FetchAction::Finish(FetchOutcome::Cached)));

    let mut f = start();
    f.step(FetchEvent::CacheExists(true));
    f.step(FetchEvent::LastModified(Err("x".to_string())));
    let step = f.step(FetchEvent::CachedResponse(false));
    assert!(step.log.is_none());
    assert!(is_request(&step));
}

#[test]
fn rate_limit_falls_back_on_the_cache() {
    let mut f = start();
    f.step(FetchEvent::CacheExists(false));
    let step = f.step(reply(false, true, "429 Too Many Requests", Ok("slow down")));
    assert_eq!(step.log.as_deref(), Some("rate limited \u{2014} checking cache"));
    assert!(matches!(step.action, FetchAction::ReadCachedResponse));
    let step = f.step(FetchEvent::CachedResponse(false));
    assert_eq!(failure(&step), "figma api 429 Too Many Requests: slow down");

    let mut f = start();
    f.step(FetchEvent::CacheExists(false));
    f.step(reply(false, true, "429 Too Many Requests", Err("broken")));
    let step = f.step(FetchEvent::CachedResponse(true));
    assert!(matches!(step.action, FetchAction::Finish(FetchOutcome::Cached)));
}

#[test]
fn request_failures() {
    let mut f = start();
    f.step(FetchEvent::CacheExists(false));
    let step = f.step(FetchEvent::Response(HttpReply::SendFailed("dns".to_string())));
    assert_eq!(failure(&step), "figma api error: dns");

    let mut f = start();
    f.step(FetchEvent::CacheExists(false));
    let step = f.step(reply(false, false, "404 Not Found", Ok("{\"err\":\"nope\"}")));
    assert_eq!(failure(&step), "figma api 404 Not Found: {\"err\":\"nope\"}");

    let mut f = start();
    f.step(FetchEvent::CacheExists(false));
    let step = f.step(reply(true, false, "200 OK", Err("reset")));
    assert_eq!(failure(&step), "read body: reset");
}

#[test]
fn fresh_body_is_cached_then_parsed() {
    let mut f = start();
    f.step(FetchEvent::CacheExists(false));
    let step = f.step(reply(true, false, "200 OK", Ok("{body}")));
    assert!(is_metadata_request(&step));
    let step = f.step(FetchEvent::LastModified(Err("x".to_string())));
    match &step.action {
        FetchAction::WriteCache { body, last_modified } => {
            assert_eq!(body, "{body}");
            assert_eq!(last_modified, "unknown");
        },
        _ => panic!("expected a cache write"),
    }
    let step = f.step(FetchEvent::Continue);
    match &step.action {
        FetchAction::ParseBody { body } => assert_eq!(body, "{body}"),
        _ => panic!("expected a parse"),
    }
    let step = f.step(FetchEvent::Parsed(Ok(())));
    assert!(matches!(step.action, FetchAction::Finish(FetchOutcome::Parsed)));
}

#[test]
fn fresh_body_keeps_the_file_timestamp_and_may_fail_to_parse() {
    let mut f = start();
    f.step(FetchEvent::CacheExists(false));
    f.step(reply(true, false, "200 OK", Ok("{body}")));
    let step = f.step(FetchEvent::LastModified(Ok("when".to_string())));
    match &step.action {
        FetchAction::WriteCache { last_modified, .. } => assert_eq!(last_modified, "when"),
        _ => panic!("expected a cache write"),
    }
    f.step(FetchEvent::Continue);
    let step = f.step(FetchEvent::Parsed(Err("expected value".to_string())));
    assert_eq!(failure(&step), "figma parse error: expected value");
}

#[test]
fn metadata_reply_results() {
    assert_eq!(last_modified_result(MetaReply::SendFailed("dns".to_string())), Err("figma metadata error: dns".to_string()));
    assert_eq!(
        last_modified_result(MetaReply::Failed { status: "403 Forbidden".to_string() }),
        Err("figma metadata 403 Forbidden".to_string())
    );
    assert_eq!(last_modified_result(MetaReply::Parsed(Ok("t".to_string()))), Ok("t".to_string()));
    assert_eq!(
        last_modified_result(MetaReply::Parsed(Err("missing field".to_string()))),
        Err("parse metadata: missing field".to_string())
    );
}

fn refs() -> Vec<(String, String)> {
    vec![
        ("1:2".to_string(), "h1".to_string()),
        ("3:4".to_string(), "h2".to_string()),
        ("5:6".to_string(), "h3".to_string()),
    ]
}

#[test]
fn no_references_fetch_nothing() {
    let (_, a) = ImageFetch::start("t".to_string(), "KEY".to_string(), vec![]);
    assert!(matches!(a, ImageAction::Finish(Ok(0))));
}

#[test]
fn listed_renders_are_downloaded_and_counted() {
    let (mut f, a) = ImageFetch::start("t".to_string(), "KEY".to_string(), refs());
    match &a {
        ImageAction::Request { url, token } => {
            assert_eq!(url, "https://api.figma.com/v1/images/KEY?ids=1:2,3:4,5:6&format=png&scale=2");
            assert_eq!(token, "t");
        },
        _ => panic!("expected the listing request"),
    }
    let listing = vec![
        ("5:6".to_string(), Some("https://img/56".to_string())),
        ("3:4".to_string(), None),
        ("1:2".to_string(), Some("https://img/12".to_string())),
    ];
    let a = f.step(ImageEvent::Listed(ImagesReply::Parsed(Ok(listing))));
    match &a {
        ImageAction::Download { url, file_name } => {
            assert_eq!(url, "https://img/12");
            assert_eq!(file_name, "1:2.png");
        },
        _ => panic!("expected a download"),
    }
    let a = f.step(ImageEvent::Saved(true));
    match &a {
        ImageAction::Download { url, file_name } => {
            assert_eq!(url, "https://img/56");
            assert_eq!(file_name, "5:6.png");
        },
        _ => panic!("expected a download"),
    }
    let a = f.step(ImageEvent::Saved(false));
    assert!(matches!(a, ImageAction::Finish(Ok(1))));
}

#[test]
fn listing_failures() {
    let (mut f, _) = ImageFetch::start("t".to_string(), "K".to_string(), refs());
    let a = f.step(ImageEvent::Listed(ImagesReply::SendFailed("dns".to_string())));
    assert!(matches!(a, ImageAction::Finish(Err(ref e)) if e == "figma images api: dns"));

    let (mut f, _) = ImageFetch::start("t".to_string(), "K".to_string(), refs());
    let a = f.step(ImageEvent::Listed(ImagesReply::Failed { status: "400 Bad Request".to_string() }));
    assert!(matches!(a, ImageAction::Finish(Err(ref e)) if e == "figma images api 400 Bad Request"));

    let (mut f, _) = ImageFetch::start("t".to_string(), "K".to_string(), refs());
    let a = f.step(ImageEvent::Listed(ImagesReply::Parsed(Err("eof".to_string()))));
    assert!(matches!(a, ImageAction::Finish(Err(ref e)) if e == "parse images: eof"));

    let (mut f, _) = ImageFetch::start("t".to_string(), "K".to_string(), refs());
    let a = f.step(ImageEvent::Listed(ImagesReply::Parsed(Ok(vec![]))));
    assert!(matches!(a, ImageAction::Finish(Ok(0))));
}
