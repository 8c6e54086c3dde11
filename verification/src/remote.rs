use vstd::prelude::*;
use crate::figma::join_with;
use crate::text::{owned, text_eq};

verus! {

// ---------------------------------------------------------------------------
// Request addresses and file names

/// Address of the nodes of a file: `https://api.figma.com/v1/files/<key>/nodes?ids=<node>`.
pub open spec fn nodes_url_of(file_key: Seq<char>, node_id: Seq<char>) -> Seq<char> {
    "https://api.figma.com/v1/files/"@ + file_key + "/nodes?ids="@ + node_id
}

/// Address of a file's metadata: `https://api.figma.com/v1/files/<key>`.
pub open spec fn file_url_of(file_key: Seq<char>) -> Seq<char> {
    "https://api.figma.com/v1/files/"@ + file_key
}

/// Address of the PNG renders of nodes at scale 2:
/// `https://api.figma.com/v1/images/<key>?ids=<id>,<id>,...&format=png&scale=2`.
pub open spec fn images_url_of(file_key: Seq<char>, ids: Seq<Seq<char>>) -> Seq<char> {
    "https://api.figma.com/v1/images/"@ + file_key + "?ids="@ + join_with(ids, ',') + "&format=png&scale=2"@
}

/// The address of a file's nodes (see `nodes_url_of`).
pub fn nodes_url(file_key: &str, node_id: &str) -> (r: String)
    ensures
        r@ == nodes_url_of(file_key@, node_id@),
{
    let mut s = owned("https://api.figma.com/v1/files/");
    s.push_str(file_key);
    s.push_str("/nodes?ids=");
    s.push_str(node_id);
    s
}

/// The address of a file's metadata (see `file_url_of`).
pub fn file_url(file_key: &str) -> (r: String)
    ensures
        r@ == file_url_of(file_key@),
{
    let mut s = owned("https://api.figma.com/v1/files/");
    s.push_str(file_key);
    s
}

/// The node ids of a list of `(node id, image hash)` pairs.
pub open spec fn ref_ids(refs: Seq<(String, String)>) -> Seq<Seq<char>> {
    refs.map_values(|p: (String, String)| p.0@)
}

/// The address of the renders of the nodes with image fills (see `images_url_of`).
pub fn images_url(file_key: &str, image_refs: &Vec<(String, String)>) -> (r: String)
    ensures
        r@ == images_url_of(file_key@, ref_ids(image_refs@)),
{
    let mut s = owned("https://api.figma.com/v1/images/");
    s.push_str(file_key);
    s.push_str("?ids=");
    let ghost head = s@;
    let ghost ids = ref_ids(image_refs@);
    let mut i: usize = 0;
    assert(ids.take(0) =~= Seq::<Seq<char>>::empty());
    while i < image_refs.len()
        invariant
            0 <= i <= image_refs.len(),
            ids == ref_ids(image_refs@),
            s@ == head + join_with(ids.take(i as int), ','),
        decreases image_refs.len() - i,
    {
        let ghost before = s@;
        if i > 0 {
            s.push(',');
        }
        s.push_str(image_refs[i].0.as_str());
        proof {
            let t = ids.take(i + 1);
            assert(t.drop_last() =~= ids.take(i as int));
            assert(t.last() == image_refs@[i as int].0@);
            if i == 0 {
                assert(t.len() == 1);
                assert(s@ =~= head + join_with(t, ','));
            } else {
                assert(s@ =~= head + join_with(t, ','));
            }
        }
        i = i + 1;
    }
    assert(ids.take(image_refs@.len() as int) =~= ids);
    s.push_str("&format=png&scale=2");
    s
}

/// File name of the render of a node: the node id followed by `.png`.
pub open spec fn image_file_name_of(node_id: Seq<char>) -> Seq<char> {
    node_id + ".png"@
}

/// File name of the render of a node (see `image_file_name_of`).
pub fn image_file_name(node_id: &str) -> (r: String)
    ensures
        r@ == image_file_name_of(node_id@),
{
    let mut s = owned(node_id);
    s.push_str(".png");
    s
}

// ---------------------------------------------------------------------------
// Fetching a file's nodes, with a response cache

/// What came back from a request.
pub enum HttpReply {
    /// The request could not be sent; the error text.
    SendFailed(String),
    /// A response: whether its status is a success, whether it is 429, the
    /// status text (`429 Too Many Requests`) and the body text or the error
    /// reading it.
    Received { success: bool, rate_limited: bool, status: String, body: Result<String, String> },
}

/// What the caller reports after doing a `FetchAction`.
pub enum FetchEvent {
    /// The action is done and has nothing to report.
    Continue,
    /// Whether a cached response exists.
    CacheExists(bool),
    /// The file's `lastModified` value, or the error that stopped it.
    LastModified(Result<String, String>),
    /// The cached `lastModified` value, when it could be read.
    CachedMeta(Option<String>),
    /// Whether the cached response could be read and parsed.
    CachedResponse(bool),
    /// The reply to a request.
    Response(HttpReply),
    /// Whether the response body parsed, or the error.
    Parsed(Result<(), String>),
}

/// How a fetch ends.
pub enum FetchOutcome {
    /// With the cached response.
    Cached,
    /// With the freshly parsed response body.
    Parsed,
    /// With an error text.
    Failed(String),
}

/// Work a fetch asks of its caller.
pub enum FetchAction {
    /// Tell whether a cached response exists.
    CheckCache,
    /// Request the file's metadata at `url` with `token` and report its `lastModified`.
    CheckLastModified { url: String, token: String },
    /// Read the cached `lastModified` value.
    ReadCachedMeta,
    /// Read and parse the cached response.
    ReadCachedResponse,
    /// Request `url` with `token`.
    Request { url: String, token: String },
    /// Store `body` and `last_modified` in the cache.
    WriteCache { body: String, last_modified: String },
    /// Parse `body` as a nodes response.
    ParseBody { body: String },
    /// The fetch is over.
    Finish(FetchOutcome),
}

/// A message to print on the error stream (if any), then an action.
pub struct FetchStep {
    pub log: Option<String>,
    pub action: FetchAction,
}

/// Where a fetch stands.
pub enum FetchPhase {
    AwaitCacheExists,
    AwaitLastModified,
    AwaitCachedMeta(String),
    AwaitHitResponse,
    AwaitFallbackResponse,
    AwaitResponse,
    AwaitRateResponse(String),
    AwaitSaveMeta(String),
    AwaitWrite(String),
    AwaitParse,
    Done,
}

/// The fetch of one node of one file with one token.
pub struct NodeFetch {
    pub token: String,
    pub file_key: String,
    pub node_id: String,
    pub phase: FetchPhase,
}

/// Model of an `HttpReply`.
pub enum ReplyView {
    SendFailed(Seq<char>),
    Received { success: bool, rate_limited: bool, status: Seq<char>, body: Result<Seq<char>, Seq<char>> },
}

/// Model of a `FetchEvent`.
pub enum FetchEventView {
    Continue,
    CacheExists(bool),
    LastModified(Result<Seq<char>, Seq<char>>),
    CachedMeta(Option<Seq<char>>),
    CachedResponse(bool),
    Response(ReplyView),
    Parsed(Result<(), Seq<char>>),
}

/// Model of a `FetchOutcome`.
pub enum OutcomeView {
    Cached,
    Parsed,
    Failed(Seq<char>),
}

/// Model of a `FetchAction`.
pub enum FetchActionView {
    CheckCache,
    CheckLastModified { url: Seq<char>, token: Seq<char> },
    ReadCachedMeta,
    ReadCachedResponse,
    Request { url: Seq<char>, token: Seq<char> },
    WriteCache { body: Seq<char>, last_modified: Seq<char> },
    ParseBody { body: Seq<char> },
    Finish(OutcomeView),
}

/// Model of a `FetchStep`.
pub struct FetchStepView {
    pub log: Option<Seq<char>>,
    pub action: FetchActionView,
}

/// Model of a `FetchPhase`.
pub enum FetchPhaseView {
    AwaitCacheExists,
    AwaitLastModified,
    AwaitCachedMeta(Seq<char>),
    AwaitHitResponse,
    AwaitFallbackResponse,
    AwaitResponse,
    AwaitRateResponse(Seq<char>),
    AwaitSaveMeta(Seq<char>),
    AwaitWrite(Seq<char>),
    AwaitParse,
    Done,
}

/// Model of a text result.
pub open spec fn text_result(r: Result<String, String>) -> Result<Seq<char>, Seq<char>> {
    match r {
        Ok(s) => Ok(s@),
        Err(e) => Err(e@),
    }
}

impl View for HttpReply {
    type V = ReplyView;

    open spec fn view(&self) -> ReplyView {
        match self {
            HttpReply::SendFailed(e) => ReplyView::SendFailed(e@),
            HttpReply::Received { success, rate_limited, status, body } => ReplyView::Received {
                success: *success,
                rate_limited: *rate_limited,
                status: status@,
                body: text_result(*body),
            },
        }
    }
}

impl View for FetchEvent {
    type V = FetchEventView;

    open spec fn view(&self) -> FetchEventView {
        match self {
            FetchEvent::Continue => FetchEventView::Continue,
            FetchEvent::CacheExists(b) => FetchEventView::CacheExists(*b),
            FetchEvent::LastModified(r) => FetchEventView::LastModified(text_result(*r)),
            FetchEvent::CachedMeta(m) => FetchEventView::CachedMeta(crate::schema::opt_text(*m)),
            FetchEvent::CachedResponse(b) => FetchEventView::CachedResponse(*b),
            FetchEvent::Response(r) => FetchEventView::Response(r@),
            FetchEvent::Parsed(r) => FetchEventView::Parsed(
                match r {
                    Ok(()) => Ok(()),
                    Err(e) => Err(e@),
                },
            ),
        }
    }
}

impl View for FetchOutcome {
    type V = OutcomeView;

    open spec fn view(&self) -> OutcomeView {
        match self {
            FetchOutcome::Cached => OutcomeView::Cached,
            FetchOutcome::Parsed => OutcomeView::Parsed,
            FetchOutcome::Failed(e) => OutcomeView::Failed(e@),
        }
    }
}

impl View for FetchAction {
    type V = FetchActionView;

    open spec fn view(&self) -> FetchActionView {
        match self {
            FetchAction::CheckCache => FetchActionView::CheckCache,
            FetchAction::CheckLastModified { url, token } => FetchActionView::CheckLastModified {
                url: url@,
                token: token@,
            },
            FetchAction::ReadCachedMeta => FetchActionView::ReadCachedMeta,
            FetchAction::ReadCachedResponse => FetchActionView::ReadCachedResponse,
            FetchAction::Request { url, token } => FetchActionView::Request { url: url@, token: token@ },
            FetchAction::WriteCache { body, last_modified } => FetchActionView::WriteCache {
                body: body@,
                last_modified: last_modified@,
            },
            FetchAction::ParseBody { body } => FetchActionView::ParseBody { body: body@ },
            FetchAction::Finish(o) => FetchActionView::Finish(o@),
        }
    }
}

impl View for FetchStep {
    type V = FetchStepView;

    open spec fn view(&self) -> FetchStepView {
        FetchStepView { log: crate::schema::opt_text(self.log), action: self.action@ }
    }
}

impl View for FetchPhase {
    type V = FetchPhaseView;

    open spec fn view(&self) -> FetchPhaseView {
        match self {
            FetchPhase::AwaitCacheExists => FetchPhaseView::AwaitCacheExists,
            FetchPhase::AwaitLastModified => FetchPhaseView::AwaitLastModified,
            FetchPhase::AwaitCachedMeta(r) => FetchPhaseView::AwaitCachedMeta(r@),
            FetchPhase::AwaitHitResponse => FetchPhaseView::AwaitHitResponse,
            FetchPhase::AwaitFallbackResponse => FetchPhaseView::AwaitFallbackResponse,
            FetchPhase::AwaitResponse => FetchPhaseView::AwaitResponse,
            FetchPhase::AwaitRateResponse(e) => FetchPhaseView::AwaitRateResponse(e@),
            FetchPhase::AwaitSaveMeta(b) => FetchPhaseView::AwaitSaveMeta(b@),
            FetchPhase::AwaitWrite(b) => FetchPhaseView::AwaitWrite(b@),
            FetchPhase::AwaitParse => FetchPhaseView::AwaitParse,
            FetchPhase::Done => FetchPhaseView::Done,
        }
    }
}

/// The message printed on a cache hit.
pub open spec fn hit_message() -> Seq<char> {
    "cache hit (lastModified unchanged)"@
}

/// The message printed when the cache is out of date.
pub open spec fn stale_message() -> Seq<char> {
    "cache stale (lastModified changed)"@
}

/// The step that requests the nodes of the file.
pub open spec fn request_step(token: Seq<char>, key: Seq<char>, node: Seq<char>, log: Option<Seq<char>>) -> (FetchPhaseView, FetchStepView) {
    (
        FetchPhaseView::AwaitResponse,
        FetchStepView { log, action: FetchActionView::Request { url: nodes_url_of(key, node), token } },
    )
}

/// A step that ends the fetch.
pub open spec fn finish_step(o: OutcomeView) -> (FetchPhaseView, FetchStepView) {
    (FetchPhaseView::Done, FetchStepView { log: None, action: FetchActionView::Finish(o) })
}

/// Whether an event answers the action asked for in a phase.
pub open spec fn fetch_event_fits(p: FetchPhaseView, e: FetchEventView) -> bool {
    match p {
        FetchPhaseView::AwaitCacheExists => e is CacheExists,
        FetchPhaseView::AwaitLastModified => e is LastModified,
        FetchPhaseView::AwaitCachedMeta(_) => e is CachedMeta,
        FetchPhaseView::AwaitHitResponse => e is CachedResponse,
        FetchPhaseView::AwaitFallbackResponse => e is CachedResponse,
        FetchPhaseView::AwaitResponse => e is Response,
        FetchPhaseView::AwaitRateResponse(_) => e is CachedResponse,
        FetchPhaseView::AwaitSaveMeta(_) => e is LastModified,
        FetchPhaseView::AwaitWrite(_) => e is Continue,
        FetchPhaseView::AwaitParse => e is Parsed,
        FetchPhaseView::Done => false,
    }
}

/// The next phase and step of a fetch of node `node` of file `key` with
/// `token`, after the event `e`:
/// - with a cached response, the file's `lastModified` is requested; when it
///   equals the cached one the cached response is used; when the request
///   fails the cached response is used as well; otherwise, or when the cached
///   response cannot be read, the nodes are requested;
/// - a request that cannot be sent fails with `figma api error: <e>`;
/// - a 429 reply falls back on the cached response, other failed replies, and
///   a 429 without a cache, fail with `figma api <status>: <body>`;
/// - a successful body is stored in the cache with the file's
///   `lastModified` (`unknown` when that request fails), then parsed; a body
///   that cannot be read or parsed fails with `read body: <e>` or
///   `figma parse error: <e>`.
pub open spec fn fetch_next(
    p: FetchPhaseView,
    token: Seq<char>,
    key: Seq<char>,
    node: Seq<char>,
    e: FetchEventView,
) -> (FetchPhaseView, FetchStepView) {
    match (p, e) {
        (FetchPhaseView::AwaitCacheExists, FetchEventView::CacheExists(true)) => (
            FetchPhaseView::AwaitLastModified,
            FetchStepView {
                log: None,
                action: FetchActionView::CheckLastModified { url: file_url_of(key), token },
            },
        ),
        (FetchPhaseView::AwaitCacheExists, FetchEventView::CacheExists(false)) => request_step(token, key, node, None),
        (FetchPhaseView::AwaitLastModified, FetchEventView::LastModified(Ok(remote))) => (
            FetchPhaseView::AwaitCachedMeta(remote),
            FetchStepView { log: None, action: FetchActionView::ReadCachedMeta },
        ),
        (FetchPhaseView::AwaitLastModified, FetchEventView::LastModified(Err(err))) => (
            FetchPhaseView::AwaitFallbackResponse,
            FetchStepView {
                log: Some("metadata check failed: "@ + err + " \u{2014} using cache"@),
                action: FetchActionView::ReadCachedResponse,
            },
        ),
        (FetchPhaseView::AwaitCachedMeta(remote), FetchEventView::CachedMeta(m)) => if m == Some(remote) {
            (
                FetchPhaseView::AwaitHitResponse,
                FetchStepView { log: Some(hit_message()), action: FetchActionView::ReadCachedResponse },
            )
        } else {
            request_step(token, key, node, Some(stale_message()))
        },
        (FetchPhaseView::AwaitHitResponse, FetchEventView::CachedResponse(ok)) => if ok {
            finish_step(OutcomeView::Cached)
        } else {
            request_step(token, key, node, Some(stale_message()))
        },
        (FetchPhaseView::AwaitFallbackResponse, FetchEventView::CachedResponse(ok)) => if ok {
            finish_step(OutcomeView::Cached)
        } else {
            request_step(token, key, node, None)
        },
        (FetchPhaseView::AwaitResponse, FetchEventView::Response(ReplyView::SendFailed(err))) => finish_step(
            OutcomeView::Failed("figma api error: "@ + err),
        ),
        (
            FetchPhaseView::AwaitResponse,
            FetchEventView::Response(ReplyView::Received { success, rate_limited, status, body }),
        ) => if !success {
            let text = match body {
                Ok(b) => b,
                Err(_) => seq![],
            };
            let err = "figma api "@ + status + ": "@ + text;
            if rate_limited {
                (
                    FetchPhaseView::AwaitRateResponse(err),
                    FetchStepView {
                        log: Some("rate limited \u{2014} checking cache"@),
                        action: FetchActionView::ReadCachedResponse,
                    },
                )
            } else {
                finish_step(OutcomeView::Failed(err))
            }
        } else {
            match body {
                Err(err) => finish_step(OutcomeView::Failed("read body: "@ + err)),
                Ok(b) => (
                    FetchPhaseView::AwaitSaveMeta(b),
                    FetchStepView {
                        log: None,
                        action: FetchActionView::CheckLastModified { url: file_url_of(key), token },
                    },
                ),
            }
        },
        (FetchPhaseView::AwaitRateResponse(err), FetchEventView::CachedResponse(ok)) => if ok {
            finish_step(OutcomeView::Cached)
        } else {
            finish_step(OutcomeView::Failed(err))
        },
        (FetchPhaseView::AwaitSaveMeta(b), FetchEventView::LastModified(r)) => (
            FetchPhaseView::AwaitWrite(b),
            FetchStepView {
                log: None,
                action: FetchActionView::WriteCache {
                    body: b,
                    last_modified: match r {
                        Ok(m) => m,
                        Err(_) => "unknown"@,
                    },
                },
            },
        ),
        (FetchPhaseView::AwaitWrite(b), FetchEventView::Continue) => (
            FetchPhaseView::AwaitParse,
            FetchStepView { log: None, action: FetchActionView::ParseBody { body: b } },
        ),
        (FetchPhaseView::AwaitParse, FetchEventView::Parsed(r)) => match r {
            Ok(()) => finish_step(OutcomeView::Parsed),
            Err(err) => finish_step(OutcomeView::Failed("figma parse error: "@ + err)),
        },
        _ => finish_step(OutcomeView::Failed(seq![])),
    }
}

fn joined(a: &str, b: &str) -> (r: String)
    ensures
        r@ == a@ + b@,
{
    let mut s = owned(a);
    s.push_str(b);
    s
}

impl NodeFetch {
    /// Starts the fetch of node `node_id` of file `file_key` with `token`:
    /// the first step asks whether a cached response exists.
    pub fn start(token: String, file_key: String, node_id: String) -> (r: (NodeFetch, FetchStep))
        ensures
            r.0.token@ == token@,
            r.0.file_key@ == file_key@,
            r.0.node_id@ == node_id@,
            r.0.phase@ == FetchPhaseView::AwaitCacheExists,
            r.1@ == (FetchStepView { log: None, action: FetchActionView::CheckCache }),
    {
        (
            NodeFetch { token, file_key, node_id, phase: FetchPhase::AwaitCacheExists },
            FetchStep { log: None, action: FetchAction::CheckCache },
        )
    }

    fn request(&mut self, log: Option<String>) -> (r: FetchStep)
        ensures
            final(self).token == old(self).token,
            final(self).file_key == old(self).file_key,
            final(self).node_id == old(self).node_id,
            (final(self).phase@, r@) == request_step(old(self).token@, old(self).file_key@, old(self).node_id@, crate::schema::opt_text(log)),
    {
        self.phase = FetchPhase::AwaitResponse;
        FetchStep {
            log,
            action: FetchAction::Request { url: nodes_url(self.file_key.as_str(), self.node_id.as_str()), token: self.token.clone() },
        }
    }

    fn finish(&mut self, o: FetchOutcome) -> (r: FetchStep)
        ensures
            final(self).token == old(self).token,
            final(self).file_key == old(self).file_key,
            final(self).node_id == old(self).node_id,
            (final(self).phase@, r@) == finish_step(o@),
    {
        self.phase = FetchPhase::Done;
        FetchStep { log: None, action: FetchAction::Finish(o) }
    }

    /// Advances the fetch with the caller's report of the last action (see
    /// `fetch_next`).
    pub fn step(&mut self, event: FetchEvent) -> (r: FetchStep)
        requires
            fetch_event_fits(old(self).phase@, event@),
        ensures
            final(self).token == old(self).token,
            final(self).file_key == old(self).file_key,
            final(self).node_id == old(self).node_id,
            (final(self).phase@, r@) == fetch_next(old(self).phase@, old(self).token@, old(self).file_key@, old(self).node_id@, event@),
    {
        let mut phase = FetchPhase::Done;
        std::mem::swap(&mut phase, &mut self.phase);
        match phase {
            FetchPhase::AwaitCacheExists => match event {
                FetchEvent::CacheExists(true) => {
                    self.phase = FetchPhase::AwaitLastModified;
                    FetchStep {
                        log: None,
                        action: FetchAction::CheckLastModified { url: file_url(self.file_key.as_str()), token: self.token.clone() },
                    }
                },
                _ => self.request(None),
            },
            FetchPhase::AwaitLastModified => match event {
                FetchEvent::LastModified(Ok(remote)) => {
                    self.phase = FetchPhase::AwaitCachedMeta(remote);
                    FetchStep { log: None, action: FetchAction::ReadCachedMeta }
                },
                FetchEvent::LastModified(Err(err)) => {
                    self.phase = FetchPhase::AwaitFallbackResponse;
                    let mut msg = joined("metadata check failed: ", err.as_str());
                    msg.push_str(" \u{2014} using cache");
                    FetchStep { log: Some(msg), action: FetchAction::ReadCachedResponse }
                },
                _ => self.finish(FetchOutcome::Failed(String::new())),
            },
            FetchPhase::AwaitCachedMeta(remote) => match event {
                FetchEvent::CachedMeta(Some(m)) => {
                    if crate::text::text_eq(m.as_str(), remote.as_str()) {
                        self.phase = FetchPhase::AwaitHitResponse;
                        FetchStep { log: Some(owned("cache hit (lastModified unchanged)")), action: FetchAction::ReadCachedResponse }
                    } else {
                        self.request(Some(owned("cache stale (lastModified changed)")))
                    }
                },
                _ => self.request(Some(owned("cache stale (lastModified changed)"))),
            },
            FetchPhase::AwaitHitResponse => match event {
                FetchEvent::CachedResponse(true) => self.finish(FetchOutcome::Cached),
                _ => self.request(Some(owned("cache stale (lastModified changed)"))),
            },
            FetchPhase::AwaitFallbackResponse => match event {
                FetchEvent::CachedResponse(true) => self.finish(FetchOutcome::Cached),
                _ => self.request(None),
            },
            FetchPhase::AwaitResponse => match event {
                FetchEvent::Response(HttpReply::SendFailed(err)) => {
                    self.finish(FetchOutcome::Failed(joined("figma api error: ", err.as_str())))
                },
                FetchEvent::Response(HttpReply::Received { success, rate_limited, status, body }) => {
                    if !success {
                        let mut err = joined("figma api ", status.as_str());
                        err.push_str(": ");
                        match &body {
                            Ok(b) => err.push_str(b.as_str()),
                            Err(_) => {},
                        }
                        if rate_limited {
                            self.phase = FetchPhase::AwaitRateResponse(err);
                            let msg = owned("rate limited \u{2014} checking cache");
                            FetchStep { log: Some(msg), action: FetchAction::ReadCachedResponse }
                        } else {
                            self.finish(FetchOutcome::Failed(err))
                        }
                    } else {
                        match body {
                            Err(err) => self.finish(FetchOutcome::Failed(joined("read body: ", err.as_str()))),
                            Ok(b) => {
                                self.phase = FetchPhase::AwaitSaveMeta(b);
                                FetchStep {
                                    log: None,
                                    action: FetchAction::CheckLastModified { url: file_url(self.file_key.as_str()), token: self.token.clone() },
                                }
                            },
                        }
                    }
                },
                _ => self.finish(FetchOutcome::Failed(String::new())),
            },
            FetchPhase::AwaitRateResponse(err) => match event {
                FetchEvent::CachedResponse(true) => self.finish(FetchOutcome::Cached),
                _ => self.finish(FetchOutcome::Failed(err)),
            },
            FetchPhase::AwaitSaveMeta(b) => match event {
                FetchEvent::LastModified(r) => {
                    let last_modified = match r {
                        Ok(m) => m,
                        Err(_) => owned("unknown"),
                    };
                    let body = b.clone();
                    self.phase = FetchPhase::AwaitWrite(b);
                    FetchStep { log: None, action: FetchAction::WriteCache { body, last_modified } }
                },
                _ => self.finish(FetchOutcome::Failed(String::new())),
            },
            FetchPhase::AwaitWrite(b) => {
                self.phase = FetchPhase::AwaitParse;
                FetchStep { log: None, action: FetchAction::ParseBody { body: b } }
            },
            FetchPhase::AwaitParse => match event {
                FetchEvent::Parsed(Ok(())) => self.finish(FetchOutcome::Parsed),
                FetchEvent::Parsed(Err(err)) => self.finish(FetchOutcome::Failed(joined("figma parse error: ", err.as_str()))),
                _ => self.finish(FetchOutcome::Failed(String::new())),
            },
            FetchPhase::Done => self.finish(FetchOutcome::Failed(String::new())),
        }
    }
}


// ---------------------------------------------------------------------------
// A file's `lastModified` value

/// What came back from a request for a file's metadata.
pub enum MetaReply {
    /// The request could not be sent; the error text.
    SendFailed(String),
    /// The response status is no success; its text.
    Failed { status: String },
    /// A successful response: its `lastModified` field, or the error that
    /// stopped reading it.
    Parsed(Result<String, String>),
}

/// Model of a `MetaReply`.
pub enum MetaReplyView {
    SendFailed(Seq<char>),
    Failed { status: Seq<char> },
    Parsed(Result<Seq<char>, Seq<char>>),
}

impl View for MetaReply {
    type V = MetaReplyView;

    open spec fn view(&self) -> MetaReplyView {
        match self {
            MetaReply::SendFailed(e) => MetaReplyView::SendFailed(e@),
            MetaReply::Failed { status } => MetaReplyView::Failed { status: status@ },
            MetaReply::Parsed(r) => MetaReplyView::Parsed(text_result(*r)),
        }
    }
}

/// The `lastModified` value a metadata reply gives, or its error:
/// `figma metadata error: <e>` when the request could not be sent,
/// `figma metadata <status>` for a failed status, `parse metadata: <e>` when
/// the body could not be read.
pub open spec fn last_modified_of(r: MetaReplyView) -> Result<Seq<char>, Seq<char>> {
    match r {
        MetaReplyView::SendFailed(e) => Err("figma metadata error: "@ + e),
        MetaReplyView::Failed { status } => Err("figma metadata "@ + status),
        MetaReplyView::Parsed(Ok(m)) => Ok(m),
        MetaReplyView::Parsed(Err(e)) => Err("parse metadata: "@ + e),
    }
}

/// The `lastModified` value of a file from the reply to its metadata
/// request (see `last_modified_of`).
pub fn last_modified_result(reply: MetaReply) -> (r: Result<String, String>)
    ensures
        text_result(r) == last_modified_of(reply@),
{
    match reply {
        MetaReply::SendFailed(e) => Err(joined("figma metadata error: ", e.as_str())),
        MetaReply::Failed { status } => Err(joined("figma metadata ", status.as_str())),
        MetaReply::Parsed(Ok(m)) => Ok(m),
        MetaReply::Parsed(Err(e)) => Err(joined("parse metadata: ", e.as_str())),
    }
}

// ---------------------------------------------------------------------------
// Fetching the renders of nodes with image fills

/// What came back from the request that lists the render addresses.
pub enum ImagesReply {
    /// The request could not be sent; the error text.
    SendFailed(String),
    /// The response status is no success; its text.
    Failed { status: String },
    /// A successful response: its `images` entries (node id, render address
    /// if any), or the error that stopped reading them.
    Parsed(Result<Vec<(String, Option<String>)>, String>),
}

/// What the caller reports after doing an `ImageAction`.
pub enum ImageEvent {
    /// The reply to the listing request.
    Listed(ImagesReply),
    /// Whether the render was downloaded with a successful status and written.
    Saved(bool),
}

/// Work a render fetch asks of its caller.
pub enum ImageAction {
    /// Request `url` with `token` and report the listed render addresses.
    Request { url: String, token: String },
    /// Download `url` and write it to `file_name` in the asset directory.
    Download { url: String, file_name: String },
    /// The fetch is over: the number of renders saved, or the error text.
    Finish(Result<usize, String>),
}

/// Where a render fetch stands.
pub enum ImagePhase {
    AwaitList,
    /// Downloading the render of reference `k`.
    AwaitSave(usize),
    Done,
}

/// The fetch of the renders of the nodes in `refs` (node id, image hash),
/// from file `file_key` with `token`.
pub struct ImageFetch {
    pub token: String,
    pub file_key: String,
    pub refs: Vec<(String, String)>,
    /// The listed render addresses.
    pub images: Vec<(String, Option<String>)>,
    /// How many renders were saved so far.
    pub count: usize,
    pub phase: ImagePhase,
}

/// Model of the listed render addresses.
pub open spec fn listing_view(v: Seq<(String, Option<String>)>) -> Seq<(Seq<char>, Option<Seq<char>>)> {
    v.map_values(|p: (String, Option<String>)| (p.0@, crate::schema::opt_text(p.1)))
}

/// Model of an `ImagesReply`.
pub enum ImagesReplyView {
    SendFailed(Seq<char>),
    Failed { status: Seq<char> },
    Parsed(Result<Seq<(Seq<char>, Option<Seq<char>>)>, Seq<char>>),
}

/// Model of an `ImageEvent`.
pub enum ImageEventView {
    Listed(ImagesReplyView),
    Saved(bool),
}

/// Model of an `ImageAction`.
pub enum ImageActionView {
    Request { url: Seq<char>, token: Seq<char> },
    Download { url: Seq<char>, file_name: Seq<char> },
    Finish(Result<usize, Seq<char>>),
}

/// Model of an `ImagePhase`.
pub enum ImagePhaseView {
    AwaitList,
    AwaitSave(usize),
    Done,
}

impl View for ImagesReply {
    type V = ImagesReplyView;

    open spec fn view(&self) -> ImagesReplyView {
        match self {
            ImagesReply::SendFailed(e) => ImagesReplyView::SendFailed(e@),
            ImagesReply::Failed { status } => ImagesReplyView::Failed { status: status@ },
            ImagesReply::Parsed(r) => ImagesReplyView::Parsed(
                match r {
                    Ok(v) => Ok(listing_view(v@)),
                    Err(e) => Err(e@),
                },
            ),
        }
    }
}

impl View for ImageEvent {
    type V = ImageEventView;

    open spec fn view(&self) -> ImageEventView {
        match self {
            ImageEvent::Listed(r) => ImageEventView::Listed(r@),
            ImageEvent::Saved(b) => ImageEventView::Saved(*b),
        }
    }
}

impl View for ImageAction {
    type V = ImageActionView;

    open spec fn view(&self) -> ImageActionView {
        match self {
            ImageAction::Request { url, token } => ImageActionView::Request { url: url@, token: token@ },
            ImageAction::Download { url, file_name } => ImageActionView::Download { url: url@, file_name: file_name@ },
            ImageAction::Finish(r) => ImageActionView::Finish(
                match r {
                    Ok(n) => Ok(*n),
                    Err(e) => Err(e@),
                },
            ),
        }
    }
}

impl View for ImagePhase {
    type V = ImagePhaseView;

    open spec fn view(&self) -> ImagePhaseView {
        match self {
            ImagePhase::AwaitList => ImagePhaseView::AwaitList,
            ImagePhase::AwaitSave(k) => ImagePhaseView::AwaitSave(*k),
            ImagePhase::Done => ImagePhaseView::Done,
        }
    }
}

/// The render address listed for node `id`, looking from entry `i` on: the
/// value of the first entry with that id, when it holds an address.
pub open spec fn listed_from(images: Seq<(Seq<char>, Option<Seq<char>>)>, id: Seq<char>, i: int) -> Option<Seq<char>>
    decreases images.len() - i,
{
    if i < 0 || i >= images.len() {
        None
    } else if images[i].0 == id {
        images[i].1
    } else {
        listed_from(images, id, i + 1)
    }
}

/// The render address listed for node `id`.
pub open spec fn listed_url(images: Seq<(Seq<char>, Option<Seq<char>>)>, id: Seq<char>) -> Option<Seq<char>> {
    listed_from(images, id, 0)
}

/// The first reference from `k` on whose node has a listed address, or the
/// number of references when none has.
pub open spec fn next_download(ids: Seq<Seq<char>>, images: Seq<(Seq<char>, Option<Seq<char>>)>, k: int) -> int
    decreases ids.len() - k,
{
    if k < 0 || k >= ids.len() {
        ids.len() as int
    } else if listed_url(images, ids[k]) is Some {
        k
    } else {
        next_download(ids, images, k + 1)
    }
}

/// The step that downloads the next listed render from reference `k` on,
/// or ends with the count when none is left.
pub open spec fn download_from(
    ids: Seq<Seq<char>>,
    images: Seq<(Seq<char>, Option<Seq<char>>)>,
    k: int,
    count: usize,
) -> (ImagePhaseView, ImageActionView) {
    let j = next_download(ids, images, k);
    if j < ids.len() {
        (
            ImagePhaseView::AwaitSave(j as usize),
            ImageActionView::Download { url: listed_url(images, ids[j])->0, file_name: image_file_name_of(ids[j]) },
        )
    } else {
        (ImagePhaseView::Done, ImageActionView::Finish(Ok(count)))
    }
}

/// The first step of a render fetch: nothing to do without references,
/// else the render addresses are requested.
pub open spec fn image_start(token: Seq<char>, key: Seq<char>, ids: Seq<Seq<char>>) -> (ImagePhaseView, ImageActionView) {
    if ids.len() == 0 {
        (ImagePhaseView::Done, ImageActionView::Finish(Ok(0)))
    } else {
        (ImagePhaseView::AwaitList, ImageActionView::Request { url: images_url_of(key, ids), token })
    }
}

/// The next listing, count, phase and action of a render fetch after the
/// event `e`: a failed listing request ends the fetch with
/// `figma images api: <e>`, `figma images api <status>` or
/// `parse images: <e>`; otherwise each reference with a listed address is
/// downloaded in turn, and each one saved counts.
pub open spec fn image_next(
    p: ImagePhaseView,
    ids: Seq<Seq<char>>,
    images: Seq<(Seq<char>, Option<Seq<char>>)>,
    count: usize,
    e: ImageEventView,
) -> (Seq<(Seq<char>, Option<Seq<char>>)>, usize, ImagePhaseView, ImageActionView) {
    match (p, e) {
        (ImagePhaseView::AwaitList, ImageEventView::Listed(r)) => match r {
            ImagesReplyView::SendFailed(err) => (images, count, ImagePhaseView::Done, ImageActionView::Finish(Err("figma images api: "@ + err))),
            ImagesReplyView::Failed { status } => (images, count, ImagePhaseView::Done, ImageActionView::Finish(Err("figma images api "@ + status))),
            ImagesReplyView::Parsed(Err(err)) => (images, count, ImagePhaseView::Done, ImageActionView::Finish(Err("parse images: "@ + err))),
            ImagesReplyView::Parsed(Ok(listed)) => {
                let d = download_from(ids, listed, 0, count);
                (listed, count, d.0, d.1)
            },
        },
        (ImagePhaseView::AwaitSave(k), ImageEventView::Saved(ok)) => {
            let c = if ok { (count + 1) as usize } else { count };
            let d = download_from(ids, images, k + 1, c);
            (images, c, d.0, d.1)
        },
        _ => (images, count, ImagePhaseView::Done, ImageActionView::Finish(Err(seq![]))),
    }
}

/// Whether an event answers the action asked for in a phase.
pub open spec fn image_event_fits(p: ImagePhaseView, e: ImageEventView) -> bool {
    match p {
        ImagePhaseView::AwaitList => e is Listed,
        ImagePhaseView::AwaitSave(_) => e is Saved,
        ImagePhaseView::Done => false,
    }
}

impl ImageFetch {
    /// Model of the listed render addresses.
    pub open spec fn listing(&self) -> Seq<(Seq<char>, Option<Seq<char>>)> {
        listing_view(self.images@)
    }

    /// Nothing is counted before the listing, the count never exceeds the
    /// references handled, and a download in progress is one of the
    /// references.
    pub open spec fn wf(&self) -> bool {
        &&& self.count <= self.refs.len()
        &&& match self.phase {
            ImagePhase::AwaitList => self.count == 0,
            ImagePhase::AwaitSave(k) => k < self.refs.len() && self.count <= k,
            ImagePhase::Done => true,
        }
    }

    /// Starts the fetch of the renders of the nodes in `refs` (see `image_start`).
    pub fn start(token: String, file_key: String, refs: Vec<(String, String)>) -> (r: (ImageFetch, ImageAction))
        ensures
            r.0.token == token,
            r.0.file_key == file_key,
            r.0.refs == refs,
            r.0.count == 0,
            r.0.wf(),
            (r.0.phase@, r.1@) == image_start(token@, file_key@, ref_ids(refs@)),
    {
        if refs.len() == 0 {
            (
                ImageFetch { token, file_key, refs, images: Vec::new(), count: 0, phase: ImagePhase::Done },
                ImageAction::Finish(Ok(0)),
            )
        } else {
            let url = images_url(file_key.as_str(), &refs);
            let t = token.clone();
            (
                ImageFetch { token, file_key, refs, images: Vec::new(), count: 0, phase: ImagePhase::AwaitList },
                ImageAction::Request { url, token: t },
            )
        }
    }

    fn lookup(&self, id: &str) -> (r: Option<String>)
        ensures
            crate::schema::opt_text(r) == listed_url(self.listing(), id@),
    {
        let ghost v = self.listing();
        let mut i: usize = 0;
        while i < self.images.len()
            invariant
                0 <= i <= self.images.len(),
                v == self.listing(),
                listed_from(v, id@, 0) == listed_from(v, id@, i as int),
            decreases self.images.len() - i,
        {
            proof {
                assert(v[i as int] == (self.images@[i as int].0@, crate::schema::opt_text(self.images@[i as int].1)));
            }
            if text_eq(self.images[i].0.as_str(), id) {
                return crate::figma::clone_text(&self.images[i].1);
            }
            i = i + 1;
        }
        None
    }

    fn download_from(&mut self, k: usize) -> (a: ImageAction)
        requires
            k <= old(self).refs.len(),
            old(self).count <= k,
            old(self).count <= old(self).refs.len(),
        ensures
            final(self).token == old(self).token,
            final(self).file_key == old(self).file_key,
            final(self).refs == old(self).refs,
            final(self).images == old(self).images,
            final(self).count == old(self).count,
            final(self).wf(),
            (final(self).phase@, a@) == download_from(ref_ids(old(self).refs@), old(self).listing(), k as int, old(self).count),
    {
        let ghost ids = ref_ids(self.refs@);
        let ghost v = self.listing();
        let mut j: usize = k;
        while j < self.refs.len()
            invariant
                k <= j <= self.refs.len(),
                self.token == old(self).token,
                self.file_key == old(self).file_key,
                self.refs == old(self).refs,
                self.images == old(self).images,
                self.count == old(self).count,
                self.count <= k,
                ids == ref_ids(self.refs@),
                v == self.listing(),
                next_download(ids, v, k as int) == next_download(ids, v, j as int),
            decreases self.refs.len() - j,
        {
            let u = self.lookup(self.refs[j].0.as_str());
            match u {
                Some(url) => {
                    let file_name = image_file_name(self.refs[j].0.as_str());
                    self.phase = ImagePhase::AwaitSave(j);
                    return ImageAction::Download { url, file_name };
                },
                None => {},
            }
            j = j + 1;
        }
        self.phase = ImagePhase::Done;
        ImageAction::Finish(Ok(self.count))
    }

    /// Advances the fetch with the caller's report of the last action (see
    /// `image_next`).
    pub fn step(&mut self, event: ImageEvent) -> (a: ImageAction)
        requires
            old(self).wf(),
            image_event_fits(old(self).phase@, event@),
        ensures
            final(self).token == old(self).token,
            final(self).file_key == old(self).file_key,
            final(self).refs == old(self).refs,
            final(self).wf(),
            (final(self).listing(), final(self).count, final(self).phase@, a@) == image_next(
                old(self).phase@,
                ref_ids(old(self).refs@),
                old(self).listing(),
                old(self).count,
                event@,
            ),
    {
        let mut phase = ImagePhase::Done;
        std::mem::swap(&mut phase, &mut self.phase);
        match phase {
            ImagePhase::AwaitList => match event {
                ImageEvent::Listed(ImagesReply::SendFailed(err)) => ImageAction::Finish(Err(joined("figma images api: ", err.as_str()))),
                ImageEvent::Listed(ImagesReply::Failed { status }) => ImageAction::Finish(Err(joined("figma images api ", status.as_str()))),
                ImageEvent::Listed(ImagesReply::Parsed(Err(err))) => ImageAction::Finish(Err(joined("parse images: ", err.as_str()))),
                ImageEvent::Listed(ImagesReply::Parsed(Ok(listed))) => {
                    self.images = listed;
                    self.download_from(0)
                },
                _ => ImageAction::Finish(Err(String::new())),
            },
            ImagePhase::AwaitSave(k) => match event {
                ImageEvent::Saved(ok) => {
                    if ok {
                        self.count = self.count + 1;
                    }
                    self.download_from(k + 1)
                },
                _ => ImageAction::Finish(Err(String::new())),
            },
            ImagePhase::Done => ImageAction::Finish(Err(String::new())),
        }
    }
}


// ---------------------------------------------------------------------------
// Laws

/// When the cached `lastModified` equals the file's, the cached response is
/// read, and it is what the fetch gives when it can be read.
pub proof fn lemma_cache_hit(token: Seq<char>, key: Seq<char>, node: Seq<char>, remote: Seq<char>)
    ensures
        fetch_next(FetchPhaseView::AwaitCachedMeta(remote), token, key, node, FetchEventView::CachedMeta(Some(remote)))
            == (FetchPhaseView::AwaitHitResponse, FetchStepView { log: Some(hit_message()), action: FetchActionView::ReadCachedResponse }),
        fetch_next(FetchPhaseView::AwaitHitResponse, token, key, node, FetchEventView::CachedResponse(true))
            == finish_step(OutcomeView::Cached),
{
}

/// When the cached `lastModified` differs from the file's (or cannot be
/// read), the nodes are requested afresh.
pub proof fn lemma_cache_stale(token: Seq<char>, key: Seq<char>, node: Seq<char>, remote: Seq<char>, cached: Option<Seq<char>>)
    requires
        cached != Some(remote),
    ensures
        fetch_next(FetchPhaseView::AwaitCachedMeta(remote), token, key, node, FetchEventView::CachedMeta(cached))
            == request_step(token, key, node, Some(stale_message())),
        request_step(token, key, node, Some(stale_message())).1.action == (FetchActionView::Request { url: nodes_url_of(key, node), token }),
{
}

/// A 429 reply falls back on the cached response: it is read, and it is what
/// the fetch gives when it can be read; without it the fetch fails with the
/// status and body of the reply.
pub proof fn lemma_rate_limit_falls_back(
    token: Seq<char>,
    key: Seq<char>,
    node: Seq<char>,
    status: Seq<char>,
    body: Result<Seq<char>, Seq<char>>,
)
    ensures
        ({
            let r = fetch_next(
                FetchPhaseView::AwaitResponse,
                token,
                key,
                node,
                FetchEventView::Response(ReplyView::Received { success: false, rate_limited: true, status, body }),
            );
            let err = "figma api "@ + status + ": "@ + match body {
                Ok(b) => b,
                Err(_) => seq![],
            };
            &&& r.0 == FetchPhaseView::AwaitRateResponse(err)
            &&& r.1.action == FetchActionView::ReadCachedResponse
            &&& fetch_next(r.0, token, key, node, FetchEventView::CachedResponse(true)) == finish_step(OutcomeView::Cached)
            &&& fetch_next(r.0, token, key, node, FetchEventView::CachedResponse(false)) == finish_step(OutcomeView::Failed(err))
        }),
{
}

/// When the metadata request fails, the cached response is used if it can
/// be read.
pub proof fn lemma_metadata_failure_uses_cache(token: Seq<char>, key: Seq<char>, node: Seq<char>, err: Seq<char>)
    ensures
        fetch_next(FetchPhaseView::AwaitLastModified, token, key, node, FetchEventView::LastModified(Err(err))).1.action
            == FetchActionView::ReadCachedResponse,
        fetch_next(
            fetch_next(FetchPhaseView::AwaitLastModified, token, key, node, FetchEventView::LastModified(Err(err))).0,
            token,
            key,
            node,
            FetchEventView::CachedResponse(true),
        ) == finish_step(OutcomeView::Cached),
{
}

/// Without references nothing is requested and nothing is saved.
pub proof fn lemma_no_refs_no_request(token: Seq<char>, key: Seq<char>)
    ensures
        image_start(token, key, seq![]) == (ImagePhaseView::Done, ImageActionView::Finish(Ok(0))),
{
}

/// The next reference to download lies between `k` and the end, and has a
/// listed address when it is not the end.
pub proof fn lemma_next_download_range(ids: Seq<Seq<char>>, images: Seq<(Seq<char>, Option<Seq<char>>)>, k: int)
    requires
        0 <= k <= ids.len(),
    ensures
        k <= next_download(ids, images, k) <= ids.len(),
        next_download(ids, images, k) < ids.len() ==> listed_url(images, ids[next_download(ids, images, k)]) is Some,
    decreases ids.len() - k,
{
    if k < ids.len() && listed_url(images, ids[k]) is None {
        lemma_next_download_range(ids, images, k + 1);
    }
}

/// The number of renders saved never exceeds the number of references: a
/// fetch that counted no more than the references it handled ends with such
/// a count, and downloads only references with a listed address.
pub proof fn lemma_image_count_bounded(
    p: ImagePhaseView,
    ids: Seq<Seq<char>>,
    images: Seq<(Seq<char>, Option<Seq<char>>)>,
    count: usize,
    e: ImageEventView,
)
    requires
        ids.len() <= usize::MAX,
        count <= ids.len(),
        p is AwaitList ==> count == 0,
        p matches ImagePhaseView::AwaitSave(k) ==> count <= k < ids.len(),
    ensures
        ({
            let r = image_next(p, ids, images, count, e);
            &&& r.1 <= ids.len()
            &&& r.3 matches ImageActionView::Finish(Ok(n)) ==> n == r.1
            &&& r.2 matches ImagePhaseView::AwaitSave(j) ==> r.1 <= j < ids.len() && listed_url(r.0, ids[j as int]) is Some
        }),
{
    match (p, e) {
        (ImagePhaseView::AwaitList, ImageEventView::Listed(ImagesReplyView::Parsed(Ok(listed)))) => {
            lemma_next_download_range(ids, listed, 0);
        },
        (ImagePhaseView::AwaitSave(k), ImageEventView::Saved(ok)) => {
            lemma_next_download_range(ids, images, k + 1);
        },
        _ => {},
    }
}

} // verus!
