use vstd::prelude::*;
use crate::figma::{
    extract_schema_at, extraction_of, nodes_view, opt_assets, response_view, schema_of,
    AssetContext, AssetsView, FigmaNode, FigmaNodeView, FileNodesResponse, SvgFileView,
};
use crate::kiwi::{convert_to_figma_tree, has_tree, tree_of, KiwiDocument, KiwiNode};
use crate::schema::{opt_text, texts, ElementView, SchemaView, SemanticSchema};
use crate::text::{
    char_is_whitespace, chars_of, contains_text, equal_ignoring_ascii_case, eq_ignore_ascii_case,
    nat_digits, occurs_in, owned, seq_eq, string_of, text_eq, u64_text, unicode_white_space,
};

verus! {

/// Command line of the tool.
pub struct Cli {
    pub command: Command,
}

/// The two commands.
pub enum Command {
    /// Extract the semantic schema of a frame fetched from the REST API.
    Ui(UiArgs),
    /// Convert a saved design document to the semantic schema.
    Convert(ConvertArgs),
}

/// Arguments of `ui`.
pub struct UiArgs {
    pub semantic: bool,
    pub file: String,
    pub node: String,
    pub output: Option<String>,
    pub token: Option<String>,
}

/// Arguments of `convert`.
pub struct ConvertArgs {
    pub input: String,
    pub output: Option<String>,
    pub screen: Option<String>,
    pub dump_assets: Option<String>,
    pub file_key: Option<String>,
    pub token: Option<String>,
    pub kiwi: bool,
    pub frame: Option<String>,
}

// ---------------------------------------------------------------------------
// Frame lookup

/// A node that is a frame, component or instance with the given name,
/// ignoring ASCII case.
pub open spec fn frame_named(n: FigmaNodeView, name: Seq<char>) -> bool {
    equal_ignoring_ascii_case(n.name, name) && (n.node_type == "FRAME"@ || n.node_type
        == "COMPONENT"@ || n.node_type == "INSTANCE"@)
}

/// The first node of the tree, in pre-order, that is a frame named `name`.
pub open spec fn find_frame_in(n: FigmaNodeView, name: Seq<char>) -> Option<FigmaNodeView>
    decreases n,
{
    if frame_named(n, name) {
        Some(n)
    } else {
        match n.children {
            Some(c) => find_frame_list(c, c.len() as int, name),
            None => None,
        }
    }
}

/// The first match (see `find_frame_in`) within the first `k` trees of a list.
pub open spec fn find_frame_list(cs: Seq<FigmaNodeView>, k: int, name: Seq<char>) -> Option<FigmaNodeView>
    decreases cs, k,
{
    if k <= 0 || k > cs.len() {
        None
    } else {
        match find_frame_list(cs, k - 1, name) {
            Some(f) => Some(f),
            None => find_frame_in(cs[k - 1], name),
        }
    }
}

proof fn lemma_find_list_stable(cs: Seq<FigmaNodeView>, k: int, j: int, name: Seq<char>)
    requires
        0 <= k <= j <= cs.len(),
        find_frame_list(cs, k, name) is Some,
    ensures
        find_frame_list(cs, j, name) == find_frame_list(cs, k, name),
    decreases j - k,
{
    if j > k {
        lemma_find_list_stable(cs, k, j - 1, name);
    }
}

/// A copy of the first frame named `name` in the tree (see `find_frame_in`).
pub fn find_frame(node: &FigmaNode, name: &str) -> (r: Option<FigmaNode>)
    ensures
        crate::kiwi::opt_node(r) == find_frame_in(node@, name@),
    decreases node,
{
    if eq_ignore_ascii_case(node.name.as_str(), name) && (text_eq(node.node_type.as_str(), "FRAME")
        || text_eq(node.node_type.as_str(), "COMPONENT") || text_eq(node.node_type.as_str(), "INSTANCE")) {
        return Some(node.deep_copy());
    }
    match &node.children {
        None => None,
        Some(children) => {
            let ghost cv = nodes_view(children@);
            let mut i: usize = 0;
            while i < children.len()
                invariant
                    0 <= i <= children.len(),
                    node.children == Some(*children),
                    cv == nodes_view(children@),
                    find_frame_list(cv, i as int, name@) is None,
                    !frame_named(node@, name@),
                decreases children.len() - i,
            {
                proof {
                    assert(decreases_to!(*node => node.children));
                    assert(decreases_to!(node.children => node.children->0));
                    assert(decreases_to!(node.children->0 => node.children->0@));
                    assert(decreases_to!(node.children->0@ => node.children->0@[i as int]));
                    assert(cv[i as int] == children@[i as int]@);
                }
                let found = find_frame(&children[i], name);
                if found.is_some() {
                    proof {
                        assert(find_frame_list(cv, i + 1, name@) == find_frame_in(cv[i as int], name@));
                        lemma_find_list_stable(cv, i + 1, cv.len() as int, name@);

                    }
                    return found;
                }
                i = i + 1;
            }
            None
        },
    }
}

// ---------------------------------------------------------------------------
// Tokens from a secrets file

/// Number of leading white-space characters.
pub open spec fn leading_white(s: Seq<char>) -> nat
    decreases s.len(),
{
    if s.len() > 0 && unicode_white_space(s[0]) {
        1 + leading_white(s.drop_first())
    } else {
        0
    }
}

/// Number of trailing white-space characters.
pub open spec fn trailing_white(s: Seq<char>) -> nat
    decreases s.len(),
{
    if s.len() > 0 && unicode_white_space(s.last()) {
        1 + trailing_white(s.drop_last())
    } else {
        0
    }
}

/// A text with leading and trailing white space removed (`str::trim`).
pub open spec fn trimmed(s: Seq<char>) -> Seq<char> {
    let t = s.subrange(leading_white(s) as int, s.len() as int);
    t.subrange(0, t.len() - trailing_white(t))
}

/// Whether `s` starts with `p`.
pub open spec fn starts_with(s: Seq<char>, p: Seq<char>) -> bool {
    p.len() <= s.len() && s.subrange(0, p.len() as int) == p
}

/// A line with one trailing `\r` removed.
pub open spec fn without_cr(l: Seq<char>) -> Seq<char> {
    if l.len() > 0 && l.last() == '\r' {
        l.drop_last()
    } else {
        l
    }
}

/// The lines of a text, as `str::lines` yields them: split at `\n`, a `\r`
/// before each `\n` dropped, no final empty line.
pub open spec fn lines_of(s: Seq<char>) -> Seq<Seq<char>> {
    let parts = crate::figma::split_at_char(s, '\n');
    let body = parts.drop_last().map_values(|l: Seq<char>| without_cr(l));
    if parts.last().len() == 0 {
        body
    } else {
        body.push(parts.last())
    }
}

/// A token list with `t` added unless it is already there.
pub open spec fn add_token(ts: Seq<Seq<char>>, t: Seq<char>) -> Seq<Seq<char>> {
    if ts.contains(t) {
        ts
    } else {
        ts.push(t)
    }
}

/// Tokens after reading one secrets line: the trimmed value of a
/// `FIGMA_TOKEN=` line, then of a `FIGMA_TOKEN_2=` line, each added unless
/// already present.
pub open spec fn tokens_after_line(ts: Seq<Seq<char>>, line: Seq<char>) -> Seq<Seq<char>> {
    let p1 = "FIGMA_TOKEN="@;
    let p2 = "FIGMA_TOKEN_2="@;
    let ts1 = if starts_with(line, p1) {
        add_token(ts, trimmed(line.subrange(p1.len() as int, line.len() as int)))
    } else {
        ts
    };
    if starts_with(line, p2) {
        add_token(ts1, trimmed(line.subrange(p2.len() as int, line.len() as int)))
    } else {
        ts1
    }
}

/// Tokens after reading the first `k` lines.
pub open spec fn tokens_after_lines(ts: Seq<Seq<char>>, lines: Seq<Seq<char>>, k: int) -> Seq<Seq<char>>
    decreases k,
{
    if k <= 0 || k > lines.len() {
        ts
    } else {
        tokens_after_line(tokens_after_lines(ts, lines, k - 1), lines[k - 1])
    }
}

/// Tokens after reading a whole secrets file.
pub open spec fn tokens_after_secrets(ts: Seq<Seq<char>>, content: Seq<char>) -> Seq<Seq<char>> {
    tokens_after_lines(ts, lines_of(content), lines_of(content).len() as int)
}

/// The text views of a token list.
pub open spec fn token_texts(v: Seq<String>) -> Seq<Seq<char>> {
    crate::schema::texts(v)
}

proof fn lemma_leading_white(s: Seq<char>, i: int)
    requires
        0 <= i <= s.len(),
        forall|j: int| 0 <= j < i ==> unicode_white_space(#[trigger] s[j]),
    ensures
        leading_white(s) == i + leading_white(s.subrange(i, s.len() as int)),
    decreases i,
{
    if i > 0 {
        lemma_leading_white(s.drop_first(), i - 1);
        assert(s.drop_first().subrange(i - 1, s.drop_first().len() as int) =~= s.subrange(i, s.len() as int));
    } else {
        assert(s.subrange(0, s.len() as int) =~= s);
    }
}

proof fn lemma_trailing_white(s: Seq<char>, i: int)
    requires
        0 <= i <= s.len(),
        forall|j: int| i <= j < s.len() ==> unicode_white_space(#[trigger] s[j]),
    ensures
        trailing_white(s) == (s.len() - i) + trailing_white(s.subrange(0, i)),
    decreases s.len() - i,
{
    if i < s.len() {
        lemma_trailing_white(s.drop_last(), i);
        assert(s.drop_last().subrange(0, i) =~= s.subrange(0, i));
    } else {
        assert(s.subrange(0, s.len() as int) =~= s);
    }
}

proof fn lemma_tokens_prefix(ts: Seq<Seq<char>>, a: Seq<Seq<char>>, b: Seq<Seq<char>>, k: int)
    requires
        0 <= k <= a.len(),
        k <= b.len(),
        forall|i: int| 0 <= i < k ==> a[i] == b[i],
    ensures
        tokens_after_lines(ts, a, k) == tokens_after_lines(ts, b, k),
    decreases k,
{
    if k > 0 {
        lemma_tokens_prefix(ts, a, b, k - 1);
    }
}

fn sub_chars(s: &Vec<char>, from: usize, to: usize) -> (r: Vec<char>)
    requires
        from <= to <= s.len(),
    ensures
        r@ == s@.subrange(from as int, to as int),
{
    let mut out: Vec<char> = Vec::new();
    let mut i = from;
    while i < to
        invariant
            from <= i <= to <= s.len(),
            out@ == s@.subrange(from as int, i as int),
        decreases to - i,
    {
        out.push(s[i]);
        i = i + 1;
        assert(out@ =~= s@.subrange(from as int, i as int));
    }
    out
}

/// The text with leading and trailing white space removed (see `trimmed`).
fn trim_chars(s: &Vec<char>) -> (r: Vec<char>)
    ensures
        r@ == trimmed(s@),
{
    let mut i: usize = 0;
    while i < s.len() && char_is_whitespace(s[i])
        invariant
            0 <= i <= s.len(),
            forall|j: int| 0 <= j < i ==> unicode_white_space(#[trigger] s@[j]),
        decreases s.len() - i,
    {
        i = i + 1;
    }
    proof {
        lemma_leading_white(s@, i as int);
        let rest = s@.subrange(i as int, s@.len() as int);
        if rest.len() > 0 {
            assert(rest[0] == s@[i as int]);
        }
        assert(leading_white(rest) == 0);
    }
    let t = sub_chars(s, i, s.len());
    let mut j: usize = t.len();
    while j > 0 && char_is_whitespace(t[j - 1])
        invariant
            0 <= j <= t.len(),
            forall|k: int| j <= k < t.len() ==> unicode_white_space(#[trigger] t@[k]),
        decreases j,
    {
        j = j - 1;
    }
    proof {
        lemma_trailing_white(t@, j as int);
        let front = t@.subrange(0, j as int);
        if front.len() > 0 {
            assert(front.last() == t@[j - 1]);
        }
        assert(trailing_white(front) == 0);
    }
    sub_chars(&t, 0, j)
}

fn starts_with_chars(s: &Vec<char>, p: &Vec<char>) -> (r: bool)
    ensures
        r == starts_with(s@, p@),
{
    if p.len() > s.len() {
        return false;
    }
    let head = sub_chars(s, 0, p.len());
    seq_eq(&head, p)
}

/// Adds a token unless the list already holds it (see `add_token`).
fn add_token_exec(tokens: &mut Vec<String>, t: &Vec<char>)
    ensures
        token_texts(final(tokens)@) == add_token(token_texts(old(tokens)@), t@),
{
    let ghost ts = token_texts(tokens@);
    let mut i: usize = 0;
    while i < tokens.len()
        invariant
            0 <= i <= tokens.len(),
            ts == token_texts(tokens@),
            forall|j: int| 0 <= j < i ==> ts[j] != t@,
        decreases tokens.len() - i,
    {
        let cs = chars_of(tokens[i].as_str());
        if seq_eq(&cs, t) {
            proof {
                assert(ts[i as int] == t@);
                assert(ts.contains(t@));
            }
            return;
        }
        i = i + 1;
    }
    proof {
        assert(!ts.contains(t@));
    }
    let s = string_of(t);
    tokens.push(s);
    proof {
        assert(token_texts(tokens@) =~= ts.push(t@));
    }
}

fn read_secret_line(tokens: &mut Vec<String>, line: &Vec<char>, p1: &Vec<char>, p2: &Vec<char>)
    requires
        p1@ == "FIGMA_TOKEN="@,
        p2@ == "FIGMA_TOKEN_2="@,
    ensures
        token_texts(final(tokens)@) == tokens_after_line(token_texts(old(tokens)@), line@),
{
    if starts_with_chars(line, p1) {
        let rest = sub_chars(line, p1.len(), line.len());
        let t = trim_chars(&rest);
        add_token_exec(tokens, &t);
    }
    if starts_with_chars(line, p2) {
        let rest = sub_chars(line, p2.len(), line.len());
        let t = trim_chars(&rest);
        add_token_exec(tokens, &t);
    }
}

/// Adds the tokens of a secrets file: for each line, the trimmed value of a
/// `FIGMA_TOKEN=` line, then of a `FIGMA_TOKEN_2=` line, each unless the
/// list already holds it (see `tokens_after_secrets`).
pub fn collect_secret_tokens(tokens: &mut Vec<String>, content: &str)
    ensures
        token_texts(final(tokens)@) == tokens_after_secrets(token_texts(old(tokens)@), content@),
{
    let cs = chars_of(content);
    let p1 = chars_of("FIGMA_TOKEN=");
    let p2 = chars_of("FIGMA_TOKEN_2=");
    let ghost ts0 = token_texts(tokens@);
    let mut current: Vec<char> = Vec::new();
    let mut i: usize = 0;
    proof {
        let e: Seq<Seq<char>> = seq![Seq::<char>::empty()];
        assert(cs@.take(0) =~= Seq::<char>::empty());
        assert(crate::figma::split_at_char(cs@.take(0), '\n') == e);
        assert(e.drop_last().map_values(|l: Seq<char>| without_cr(l)) =~= Seq::<Seq<char>>::empty());
    }
    while i < cs.len()
        invariant
            0 <= i <= cs.len(),
            cs@ == content@,
            p1@ == "FIGMA_TOKEN="@,
            p2@ == "FIGMA_TOKEN_2="@,
            ({
                let parts = crate::figma::split_at_char(cs@.take(i as int), '\n');
                let body = parts.drop_last().map_values(|l: Seq<char>| without_cr(l));
                &&& current@ == parts.last()
                &&& token_texts(tokens@) == tokens_after_lines(ts0, body, body.len() as int)
                &&& parts.len() >= 1
            }),
        decreases cs.len() - i,
    {
        let c = cs[i];
        let ghost t = cs@.take(i as int);
        let ghost parts = crate::figma::split_at_char(t, '\n');
        let ghost body = parts.drop_last().map_values(|l: Seq<char>| without_cr(l));
        proof {
            assert(cs@.take(i + 1) =~= t.push(c));
            assert(t.push(c).drop_last() =~= t);
        }
        if c == '\n' {
            let mut line = current;
            if line.len() > 0 && line[line.len() - 1] == '\r' {
                line.pop();
            }
            assert(line@ == without_cr(parts.last()));
            read_secret_line(tokens, &line, &p1, &p2);
            current = Vec::new();
            proof {
                let parts2 = parts.push(Seq::<char>::empty());
                assert(crate::figma::split_at_char(t.push(c), '\n') == parts2);
                assert(parts2.drop_last() =~= parts);
                let body2 = parts.map_values(|l: Seq<char>| without_cr(l));
                assert(body2 =~= body.push(without_cr(parts.last()))) by {
                    assert(parts.drop_last().push(parts.last()) =~= parts);
                }
                assert(body2.drop_last() =~= body);
                assert(current@ =~= parts2.last());
                lemma_tokens_prefix(ts0, body2, body, body.len() as int);
            }
        } else {
            current.push(c);
            proof {
                let parts2 = parts.update(parts.len() - 1, parts.last().push(c));
                assert(crate::figma::split_at_char(t.push(c), '\n') == parts2);
                assert(parts2.drop_last() =~= parts.drop_last());
            }
        }
        i = i + 1;
    }
    let ghost parts = crate::figma::split_at_char(content@, '\n');
    let ghost body = parts.drop_last().map_values(|l: Seq<char>| without_cr(l));
    proof {
        assert(cs@.take(cs@.len() as int) =~= cs@);
    }
    if current.len() > 0 {
        read_secret_line(tokens, &current, &p1, &p2);
        proof {
            let lines = body.push(parts.last());
            assert(lines_of(content@) == lines);
            lemma_tokens_prefix(ts0, lines, body, body.len() as int);
        }
    } else {
        proof {
            assert(lines_of(content@) == body);
        }
    }
}

// ---------------------------------------------------------------------------
// Running a command

/// How writing out the schema went.
pub enum EmitResult {
    /// Printed on standard output.
    Printed,
    /// Written to the output file.
    Written,
    /// The schema could not be serialised; the error text.
    YamlFailed(String),
    /// The output file could not be written; the error text.
    WriteFailed(String),
}

/// What the caller reports after doing a `RunAction`.
pub enum RunEvent {
    /// The action is done and has nothing to report.
    Continue,
    /// The tokens found in the environment and the secrets files.
    Tokens(Vec<String>),
    /// The fetched nodes response, or the error text.
    Nodes(Result<FileNodesResponse, String>),
    /// The input text, or the error text of reading it.
    Input(Result<String, String>),
    /// The parsed scenegraph capture, or the parse error text.
    Kiwi(Result<KiwiDocument, String>),
    /// The input parsed as a nodes response, when it is one.
    NodesResponse(Option<FileNodesResponse>),
    /// The input parsed as a bare node tree, or the parse error text.
    Node(Result<FigmaNode, String>),
    /// Whether the asset file was written.
    Written(bool),
    /// How many renders were saved, or the error text.
    Images(Result<usize, String>),
    /// How many SVG files the asset directory holds.
    Count(usize),
    /// How writing out the schema went.
    Emitted(EmitResult),
}

/// Work a command asks of its caller.
pub enum RunAction {
    /// Gather the tokens from the environment and the secrets files.
    LoadTokens,
    /// Fetch node `node` of file `file` with `token`.
    FetchNodes { token: String, file: String, node: String },
    /// Read the input text from `path`, or from standard input when `stdin`.
    ReadInput { path: String, stdin: bool },
    /// Parse `json` as a scenegraph capture.
    ParseKiwi { json: String },
    /// Parse `json` as a nodes response.
    ParseNodesResponse { json: String },
    /// Parse `json` as a bare node tree.
    ParseNode { json: String },
    /// Create the asset directory `dir` (a failure is ignored).
    CreateDir { dir: String },
    /// Write `content` to the file `file_name` in the directory `dir`.
    WriteAsset { dir: String, file_name: String, content: String },
    /// Fetch the renders of the nodes of `refs` from file `file_key` with
    /// `token` into `dir`.
    FetchImages { token: String, file_key: String, refs: Vec<(String, String)>, dir: String },
    /// Count the SVG files in `dir`.
    CountSvgs { dir: String },
    /// Serialise `schema` as YAML and write it to `output`, or print it.
    Emit { schema: SemanticSchema, output: Option<String> },
    /// The command is over, with this result.
    Finish(Result<(), String>),
    /// The command cannot go on: the capture holds no record, or its parent
    /// links run in a cycle below the root.
    Abort(String),
}

/// A message to print on the error stream (if any), then an action.
pub struct RunStep {
    pub log: Option<String>,
    pub action: RunAction,
}

/// Where a command stands.
pub enum RunPhase {
    UiAwaitTokens,
    UiAwaitNodes(usize),
    ConvertAwaitInput,
    ConvertAwaitKiwi,
    ConvertAwaitResponse(String),
    ConvertAwaitNode,
    ConvertAwaitDir(FigmaNode),
    ConvertAwaitWrite(SemanticSchema, AssetContext, usize),
    ConvertAwaitTokens(SemanticSchema, AssetContext),
    ConvertAwaitImages(SemanticSchema, AssetContext, usize),
    ConvertAwaitCount(SemanticSchema, String),
    AwaitEmit,
    Done,
}

/// A running command: its arguments, the tokens in use and where it stands.
pub struct Runner {
    pub cli: Cli,
    pub tokens: Vec<String>,
    pub phase: RunPhase,
}

/// Model of an `EmitResult`.
pub enum EmitView {
    Printed,
    Written,
    YamlFailed(Seq<char>),
    WriteFailed(Seq<char>),
}

/// Model of a `RunEvent`.
pub enum RunEventView {
    Continue,
    Tokens(Seq<Seq<char>>),
    Nodes(Result<Seq<(Seq<char>, FigmaNodeView)>, Seq<char>>),
    Input(Result<Seq<char>, Seq<char>>),
    Kiwi(Result<Seq<KiwiNode>, Seq<char>>),
    NodesResponse(Option<Seq<(Seq<char>, FigmaNodeView)>>),
    Node(Result<FigmaNodeView, Seq<char>>),
    Written(bool),
    Images(Result<usize, Seq<char>>),
    Count(usize),
    Emitted(EmitView),
}

/// Model of a `RunAction`.
pub enum RunActionView {
    LoadTokens,
    FetchNodes { token: Seq<char>, file: Seq<char>, node: Seq<char> },
    ReadInput { path: Seq<char>, stdin: bool },
    ParseKiwi { json: Seq<char> },
    ParseNodesResponse { json: Seq<char> },
    ParseNode { json: Seq<char> },
    CreateDir { dir: Seq<char> },
    WriteAsset { dir: Seq<char>, file_name: Seq<char>, content: Seq<char> },
    FetchImages { token: Seq<char>, file_key: Seq<char>, refs: Seq<(Seq<char>, Seq<char>)>, dir: Seq<char> },
    CountSvgs { dir: Seq<char> },
    Emit { schema: SchemaView, output: Option<Seq<char>> },
    Finish(Result<(), Seq<char>>),
    Abort(Seq<char>),
}

/// Model of a `RunStep`.
pub struct RunStepView {
    pub log: Option<Seq<char>>,
    pub action: RunActionView,
}

/// Model of a `RunPhase`.
pub enum RunPhaseView {
    UiAwaitTokens,
    UiAwaitNodes(usize),
    ConvertAwaitInput,
    ConvertAwaitKiwi,
    ConvertAwaitResponse(Seq<char>),
    ConvertAwaitNode,
    ConvertAwaitDir(FigmaNodeView),
    ConvertAwaitWrite(SchemaView, AssetsView, usize),
    ConvertAwaitTokens(SchemaView, AssetsView),
    ConvertAwaitImages(SchemaView, AssetsView, usize),
    ConvertAwaitCount(SchemaView, Seq<char>),
    AwaitEmit,
    Done,
}

/// Model of a `Runner` (its arguments aside): the tokens and the phase.
pub struct RunnerView {
    pub tokens: Seq<Seq<char>>,
    pub phase: RunPhaseView,
}

impl View for EmitResult {
    type V = EmitView;

    open spec fn view(&self) -> EmitView {
        match self {
            EmitResult::Printed => EmitView::Printed,
            EmitResult::Written => EmitView::Written,
            EmitResult::YamlFailed(e) => EmitView::YamlFailed(e@),
            EmitResult::WriteFailed(e) => EmitView::WriteFailed(e@),
        }
    }
}

impl View for RunEvent {
    type V = RunEventView;

    open spec fn view(&self) -> RunEventView {
        match self {
            RunEvent::Continue => RunEventView::Continue,
            RunEvent::Tokens(v) => RunEventView::Tokens(texts(v@)),
            RunEvent::Nodes(r) => RunEventView::Nodes(
                match r {
                    Ok(x) => Ok(response_view(*x)),
                    Err(e) => Err(e@),
                },
            ),
            RunEvent::Input(r) => RunEventView::Input(crate::remote::text_result(*r)),
            RunEvent::Kiwi(r) => RunEventView::Kiwi(
                match r {
                    Ok(d) => Ok(d.node_changes@),
                    Err(e) => Err(e@),
                },
            ),
            RunEvent::NodesResponse(o) => RunEventView::NodesResponse(
                match o {
                    Some(x) => Some(response_view(*x)),
                    None => None,
                },
            ),
            RunEvent::Node(r) => RunEventView::Node(
                match r {
                    Ok(n) => Ok(n@),
                    Err(e) => Err(e@),
                },
            ),
            RunEvent::Written(b) => RunEventView::Written(*b),
            RunEvent::Images(r) => RunEventView::Images(
                match r {
                    Ok(n) => Ok(*n),
                    Err(e) => Err(e@),
                },
            ),
            RunEvent::Count(n) => RunEventView::Count(*n),
            RunEvent::Emitted(e) => RunEventView::Emitted(e@),
        }
    }
}

impl View for RunAction {
    type V = RunActionView;

    open spec fn view(&self) -> RunActionView {
        match self {
            RunAction::LoadTokens => RunActionView::LoadTokens,
            RunAction::FetchNodes { token, file, node } => RunActionView::FetchNodes {
                token: token@,
                file: file@,
                node: node@,
            },
            RunAction::ReadInput { path, stdin } => RunActionView::ReadInput { path: path@, stdin: *stdin },
            RunAction::ParseKiwi { json } => RunActionView::ParseKiwi { json: json@ },
            RunAction::ParseNodesResponse { json } => RunActionView::ParseNodesResponse { json: json@ },
            RunAction::ParseNode { json } => RunActionView::ParseNode { json: json@ },
            RunAction::CreateDir { dir } => RunActionView::CreateDir { dir: dir@ },
            RunAction::WriteAsset { dir, file_name, content } => RunActionView::WriteAsset {
                dir: dir@,
                file_name: file_name@,
                content: content@,
            },
            RunAction::FetchImages { token, file_key, refs, dir } => RunActionView::FetchImages {
                token: token@,
                file_key: file_key@,
                refs: crate::figma::text_pairs(refs@),
                dir: dir@,
            },
            RunAction::CountSvgs { dir } => RunActionView::CountSvgs { dir: dir@ },
            RunAction::Emit { schema, output } => RunActionView::Emit { schema: schema@, output: opt_text(*output) },
            RunAction::Finish(r) => RunActionView::Finish(
                match r {
                    Ok(()) => Ok(()),
                    Err(e) => Err(e@),
                },
            ),
            RunAction::Abort(m) => RunActionView::Abort(m@),
        }
    }
}

impl View for RunStep {
    type V = RunStepView;

    open spec fn view(&self) -> RunStepView {
        RunStepView { log: opt_text(self.log), action: self.action@ }
    }
}

impl View for RunPhase {
    type V = RunPhaseView;

    open spec fn view(&self) -> RunPhaseView {
        match self {
            RunPhase::UiAwaitTokens => RunPhaseView::UiAwaitTokens,
            RunPhase::UiAwaitNodes(i) => RunPhaseView::UiAwaitNodes(*i),
            RunPhase::ConvertAwaitInput => RunPhaseView::ConvertAwaitInput,
            RunPhase::ConvertAwaitKiwi => RunPhaseView::ConvertAwaitKiwi,
            RunPhase::ConvertAwaitResponse(j) => RunPhaseView::ConvertAwaitResponse(j@),
            RunPhase::ConvertAwaitNode => RunPhaseView::ConvertAwaitNode,
            RunPhase::ConvertAwaitDir(n) => RunPhaseView::ConvertAwaitDir(n@),
            RunPhase::ConvertAwaitWrite(s, a, k) => RunPhaseView::ConvertAwaitWrite(s@, a@, *k),
            RunPhase::ConvertAwaitTokens(s, a) => RunPhaseView::ConvertAwaitTokens(s@, a@),
            RunPhase::ConvertAwaitImages(s, a, i) => RunPhaseView::ConvertAwaitImages(s@, a@, *i),
            RunPhase::ConvertAwaitCount(s, d) => RunPhaseView::ConvertAwaitCount(s@, d@),
            RunPhase::AwaitEmit => RunPhaseView::AwaitEmit,
            RunPhase::Done => RunPhaseView::Done,
        }
    }
}

impl View for Runner {
    type V = RunnerView;

    open spec fn view(&self) -> RunnerView {
        RunnerView { tokens: texts(self.tokens@), phase: self.phase@ }
    }
}

/// The output path of a command, if any.
pub open spec fn output_of(cli: Cli) -> Option<Seq<char>> {
    match cli.command {
        Command::Ui(a) => opt_text(a.output),
        Command::Convert(a) => opt_text(a.output),
    }
}

/// A transition to a next phase with a step.
pub type Transition = (Seq<Seq<char>>, RunPhaseView, RunStepView);

/// The command ends with a result.
pub open spec fn finish_with(tokens: Seq<Seq<char>>, r: Result<(), Seq<char>>, log: Option<Seq<char>>) -> Transition {
    (tokens, RunPhaseView::Done, RunStepView { log, action: RunActionView::Finish(r) })
}

/// The schema is written out.
pub open spec fn emit_schema(cli: Cli, tokens: Seq<Seq<char>>, schema: SchemaView, log: Option<Seq<char>>) -> Transition {
    (
        tokens,
        RunPhaseView::AwaitEmit,
        RunStepView { log, action: RunActionView::Emit { schema, output: output_of(cli) } },
    )
}

/// The nodes are fetched with token `i`.
pub open spec fn ui_fetch(a: UiArgs, tokens: Seq<Seq<char>>, i: int, log: Option<Seq<char>>) -> Transition {
    (
        tokens,
        RunPhaseView::UiAwaitNodes(i as usize),
        RunStepView { log, action: RunActionView::FetchNodes { token: tokens[i], file: a.file@, node: a.node@ } },
    )
}

/// The error of a `ui` command without any token.
pub open spec fn no_token_message() -> Seq<char> {
    "no Figma token. set FIGMA_TOKEN env, --token flag, or add to secrets.properties"@
}

/// A `ui` command with its token list: fail without tokens, else fetch
/// with the first.
pub open spec fn ui_with_tokens(a: UiArgs, tokens: Seq<Seq<char>>) -> Transition {
    if tokens.len() == 0 {
        finish_with(tokens, Err(no_token_message()), None)
    } else {
        ui_fetch(a, tokens, 0, None)
    }
}

/// A schema with the screen name replaced when one is given.
pub open spec fn with_screen(s: SchemaView, screen: Option<Seq<char>>) -> SchemaView {
    match screen {
        Some(n) => SchemaView { screen: n, ..s },
        None => s,
    }
}

/// The step that counts the SVG files of the asset directory.
pub open spec fn count_svgs(tokens: Seq<Seq<char>>, schema: SchemaView, dir: Seq<char>, log: Option<Seq<char>>) -> Transition {
    (
        tokens,
        RunPhaseView::ConvertAwaitCount(schema, dir),
        RunStepView { log, action: RunActionView::CountSvgs { dir } },
    )
}

/// Renders are fetched with token `i`.
pub open spec fn image_fetch(
    a: ConvertArgs,
    tokens: Seq<Seq<char>>,
    schema: SchemaView,
    assets: AssetsView,
    i: int,
    log: Option<Seq<char>>,
) -> Transition {
    (
        tokens,
        RunPhaseView::ConvertAwaitImages(schema, assets, i as usize),
        RunStepView {
            log,
            action: RunActionView::FetchImages {
                token: tokens[i],
                file_key: opt_text(a.file_key)->0,
                refs: assets.image_refs,
                dir: assets.dir,
            },
        },
    )
}

/// With image fills recorded and the tokens known: without a file key the
/// fills are only reported; with one, renders are fetched with each token
/// in turn.
pub open spec fn images_start(a: ConvertArgs, tokens: Seq<Seq<char>>, schema: SchemaView, assets: AssetsView) -> Transition {
    match a.file_key {
        Some(_) => if tokens.len() > 0 {
            image_fetch(a, tokens, schema, assets, 0, None)
        } else {
            count_svgs(tokens, schema, assets.dir, None)
        },
        None => count_svgs(
            tokens,
            schema,
            assets.dir,
            Some(nat_digits(assets.image_refs.len()) + " image refs collected but no --file-key provided for REST fetch"@),
        ),
    }
}

/// After the SVG files are written: with image fills recorded, the tokens
/// are gathered (unless one is given) and renders fetched; then the SVG
/// files are counted.
pub open spec fn after_writes(a: ConvertArgs, tokens: Seq<Seq<char>>, schema: SchemaView, assets: AssetsView) -> Transition {
    if assets.image_refs.len() > 0 {
        match a.token {
            Some(t) => images_start(a, seq![t@], schema, assets),
            None => (tokens, RunPhaseView::ConvertAwaitTokens(schema, assets), RunStepView { log: None, action: RunActionView::LoadTokens }),
        }
    } else {
        count_svgs(tokens, schema, assets.dir, None)
    }
}

/// The queued SVG files are written from the `k`-th on.
pub open spec fn write_from(a: ConvertArgs, tokens: Seq<Seq<char>>, schema: SchemaView, assets: AssetsView, k: int) -> Transition {
    if 0 <= k < assets.svg_files.len() {
        (
            tokens,
            RunPhaseView::ConvertAwaitWrite(schema, assets, k as usize),
            RunStepView {
                log: None,
                action: RunActionView::WriteAsset {
                    dir: assets.dir,
                    file_name: assets.svg_files[k].file_name,
                    content: assets.svg_files[k].content,
                },
            },
        )
    } else {
        after_writes(a, tokens, schema, assets)
    }
}

/// A schema whose element `index` (when given) refers to no asset.
pub open spec fn clear_image_path(s: SchemaView, index: Option<usize>) -> SchemaView {
    match index {
        Some(i) => if i < s.elements.len() {
            SchemaView { elements: s.elements.update(i as int, ElementView { image_path: None, ..s.elements[i as int] }), ..s }
        } else {
            s
        },
        None => s,
    }
}

/// The asset context a conversion starts with.
pub open spec fn fresh_assets(dir: Seq<char>) -> AssetsView {
    AssetsView { dir, image_refs: seq![], svg_files: seq![] }
}

/// The conversion of a node tree once the asset directory exists.
pub open spec fn convert_with_assets(a: ConvertArgs, tokens: Seq<Seq<char>>, n: FigmaNodeView, dir: Seq<char>, secs: u64) -> Transition {
    let schema = with_screen(schema_of(n, None, Some(fresh_assets(dir)), secs), opt_text(a.screen));
    let assets = extraction_of(n, None, Some(fresh_assets(dir))).assets->0;
    write_from(a, tokens, schema, assets, 0)
}

/// The conversion of a node tree: with an asset directory, it is created
/// first; without, the schema is written out at once.
pub open spec fn convert_node(a: ConvertArgs, cli: Cli, tokens: Seq<Seq<char>>, n: FigmaNodeView, log: Option<Seq<char>>, secs: u64) -> Transition {
    match a.dump_assets {
        Some(dir) => (tokens, RunPhaseView::ConvertAwaitDir(n), RunStepView { log, action: RunActionView::CreateDir { dir: dir@ } }),
        None => emit_schema(cli, tokens, with_screen(schema_of(n, None, None, secs), opt_text(a.screen)), log),
    }
}

/// The first step of a command: `ui` fetches with the given token or
/// gathers tokens first; `convert` reads its input (`-` is standard input).
pub open spec fn run_start(cli: Cli) -> Transition {
    match cli.command {
        Command::Ui(a) => ui_start(a),
        Command::Convert(a) => convert_start(a),
    }
}

/// The first step of `ui`: fetch with the given token, or gather tokens first.
pub open spec fn ui_start(a: UiArgs) -> Transition {
    match a.token {
        Some(t) => ui_with_tokens(a, seq![t@]),
        None => (seq![], RunPhaseView::UiAwaitTokens, RunStepView { log: None, action: RunActionView::LoadTokens }),
    }
}

/// The first step of `convert`: read the input (`-` is standard input).
pub open spec fn convert_start(a: ConvertArgs) -> Transition {
    (
        seq![],
        RunPhaseView::ConvertAwaitInput,
        RunStepView { log: None, action: RunActionView::ReadInput { path: a.input@, stdin: a.input@ == "-"@ } },
    )
}

/// The message printed when token `i` (counted from 0) was rate limited.
pub open spec fn rate_limited_message(i: int) -> Seq<char> {
    "token "@ + nat_digits((i + 1) as nat) + " rate limited, trying next"@
}

/// The next tokens, phase and step of a command after the event `e`, with
/// `secs` the time used for a schema's timestamp: that of `ui` (see
/// `ui_next`) or of `convert` (see `convert_next`).
pub open spec fn run_next(cli: Cli, tokens: Seq<Seq<char>>, p: RunPhaseView, e: RunEventView, secs: u64) -> Transition {
    match cli.command {
        Command::Ui(a) => ui_next(cli, a, tokens, p, e, secs),
        Command::Convert(a) => convert_next(cli, a, tokens, p, e, secs),
    }
}

/// The next tokens, phase and step of `ui` with arguments `a` (the
/// command line `cli`) after the event `e`: every token is tried in turn
/// until the nodes are fetched (a message is printed when a token was rate
/// limited); the last error is returned when none succeeds; the first node
/// of the response is extracted and written out.
pub open spec fn ui_next(cli: Cli, a: UiArgs, tokens: Seq<Seq<char>>, p: RunPhaseView, e: RunEventView, secs: u64) -> Transition {
    match (p, e) {
        (RunPhaseView::UiAwaitTokens, RunEventView::Tokens(v)) => ui_with_tokens(a, v),
        (RunPhaseView::UiAwaitNodes(i), RunEventView::Nodes(Ok(resp))) => if resp.len() == 0 {
            finish_with(tokens, Err("no nodes returned from Figma API"@), None)
        } else {
            emit_schema(cli, tokens, schema_of(resp[0].1, None, None, secs), None)
        },
        (RunPhaseView::UiAwaitNodes(i), RunEventView::Nodes(Err(err))) => if i + 1 < tokens.len() {
            ui_fetch(
                a,
                tokens,
                i + 1,
                if occurs_in(err, "429"@) {
                    Some(rate_limited_message(i as int))
                } else {
                    None
                },
            )
        } else {
            finish_with(tokens, Err(err), None)
        },
        (RunPhaseView::AwaitEmit, RunEventView::Emitted(r)) => emitted(cli, tokens, r),
        _ => finish_with(tokens, Err(seq![]), None),
    }
}

/// The next tokens, phase and step of `convert` with arguments `a` (the
/// command line `cli`) after the event `e`: the input is parsed as a
/// capture (`--kiwi`, narrowed to the named frame), or as a nodes response,
/// or as a bare node tree; the tree is extracted, with asset work when an
/// asset directory is given: the SVG files are written (an element whose
/// file could not be written refers to none), the renders of image fills
/// fetched with the first token that succeeds, and the SVG files counted;
/// the schema is then written out.
pub open spec fn convert_next(cli: Cli, a: ConvertArgs, tokens: Seq<Seq<char>>, p: RunPhaseView, e: RunEventView, secs: u64) -> Transition {
    match (p, e) {
        (RunPhaseView::ConvertAwaitInput, RunEventView::Input(Err(err))) => finish_with(
            tokens,
            Err(
                if a.input@ == "-"@ {
                    "stdin read error: "@ + err
                } else {
                    "read "@ + a.input@ + ": "@ + err
                },
            ),
            None,
        ),
        (RunPhaseView::ConvertAwaitInput, RunEventView::Input(Ok(json))) => if a.kiwi {
            (tokens, RunPhaseView::ConvertAwaitKiwi, RunStepView { log: None, action: RunActionView::ParseKiwi { json } })
        } else {
            (
                tokens,
                RunPhaseView::ConvertAwaitResponse(json),
                RunStepView { log: None, action: RunActionView::ParseNodesResponse { json } },
            )
        },
        (RunPhaseView::ConvertAwaitKiwi, RunEventView::Kiwi(Err(err))) => finish_with(tokens, Err("kiwi parse error: "@ + err), None),
        (RunPhaseView::ConvertAwaitKiwi, RunEventView::Kiwi(Ok(nodes))) => {
            let log = Some(nat_digits(nodes.len()) + " nodeChanges parsed"@);
            match tree_of(nodes) {
                None => (tokens, RunPhaseView::Done, RunStepView { log, action: RunActionView::Abort(abort_message()) }),
                Some(tree) => match a.frame {
                    None => convert_node(a, cli, tokens, tree, log, secs),
                    Some(name) => match find_frame_in(tree, name@) {
                        None => finish_with(tokens, Err("frame '"@ + name@ + "' not found in kiwi tree"@), log),
                        Some(f) => convert_node(a, cli, tokens, f, log, secs),
                    },
                },
            }
        },
        (RunPhaseView::ConvertAwaitResponse(json), RunEventView::NodesResponse(Some(resp))) => if resp.len() == 0 {
            finish_with(tokens, Err("no nodes in FileNodesResponse"@), None)
        } else {
            convert_node(a, cli, tokens, resp[0].1, None, secs)
        },
        (RunPhaseView::ConvertAwaitResponse(json), RunEventView::NodesResponse(None)) => (
            tokens,
            RunPhaseView::ConvertAwaitNode,
            RunStepView { log: None, action: RunActionView::ParseNode { json } },
        ),
        (RunPhaseView::ConvertAwaitNode, RunEventView::Node(Err(err))) => finish_with(
            tokens,
            Err("JSON is neither FileNodesResponse nor FigmaNode: "@ + err),
            None,
        ),
        (RunPhaseView::ConvertAwaitNode, RunEventView::Node(Ok(n))) => convert_node(a, cli, tokens, n, None, secs),
        (RunPhaseView::ConvertAwaitDir(n), RunEventView::Continue) => convert_with_assets(a, tokens, n, opt_text(a.dump_assets)->0, secs),
        (RunPhaseView::ConvertAwaitWrite(schema, assets, k), RunEventView::Written(ok)) => {
            let schema2 = if ok {
                schema
            } else {
                clear_image_path(schema, assets.svg_files[k as int].element_index)
            };
            write_from(a, tokens, schema2, assets, k + 1)
        },
        (RunPhaseView::ConvertAwaitTokens(schema, assets), RunEventView::Tokens(v)) => images_start(a, v, schema, assets),
        (RunPhaseView::ConvertAwaitImages(schema, assets, i), RunEventView::Images(Ok(n))) => count_svgs(
            tokens,
            schema,
            assets.dir,
            Some(nat_digits(n as nat) + " images fetched to "@ + assets.dir),
        ),
        (RunPhaseView::ConvertAwaitImages(schema, assets, i), RunEventView::Images(Err(err))) => {
            let log = Some("image fetch error: "@ + err);
            if i + 1 < tokens.len() {
                image_fetch(a, tokens, schema, assets, i + 1, log)
            } else {
                count_svgs(tokens, schema, assets.dir, log)
            }
        },
        (RunPhaseView::ConvertAwaitCount(schema, dir), RunEventView::Count(c)) => emit_schema(
            cli,
            tokens,
            schema,
            if c > 0 {
                Some(nat_digits(c as nat) + " SVGs saved to "@ + dir)
            } else {
                None
            },
        ),
        (RunPhaseView::AwaitEmit, RunEventView::Emitted(r)) => emitted(cli, tokens, r),
        _ => finish_with(tokens, Err(seq![]), None),
    }
}

/// The end of a command once its schema was written out.
pub open spec fn emitted(cli: Cli, tokens: Seq<Seq<char>>, r: EmitView) -> Transition {
    match r {
        EmitView::Printed => finish_with(tokens, Ok(()), None),
        EmitView::Written => finish_with(tokens, Ok(()), Some("wrote "@ + output_of(cli)->0)),
        EmitView::YamlFailed(err) => finish_with(tokens, Err("yaml error: "@ + err), None),
        EmitView::WriteFailed(err) => finish_with(tokens, Err("write error: "@ + err), None),
    }
}

/// Why a capture cannot be converted.
pub open spec fn abort_message() -> Seq<char> {
    "scenegraph has no root record or its parent links form a cycle"@
}

/// Whether an event answers the action asked for in a phase.
pub open spec fn run_event_fits(cli: Cli, p: RunPhaseView, e: RunEventView) -> bool {
    match p {
        RunPhaseView::UiAwaitTokens => e is Tokens,
        RunPhaseView::UiAwaitNodes(_) => e is Nodes,
        RunPhaseView::ConvertAwaitInput => e is Input,
        RunPhaseView::ConvertAwaitKiwi => e is Kiwi,
        RunPhaseView::ConvertAwaitResponse(_) => e is NodesResponse,
        RunPhaseView::ConvertAwaitNode => e is Node,
        RunPhaseView::ConvertAwaitDir(_) => e is Continue,
        RunPhaseView::ConvertAwaitWrite(_, _, _) => e is Written,
        RunPhaseView::ConvertAwaitTokens(_, _) => e is Tokens,
        RunPhaseView::ConvertAwaitImages(_, _, _) => e is Images,
        RunPhaseView::ConvertAwaitCount(_, _) => e is Count,
        RunPhaseView::AwaitEmit => e is Emitted && (e->Emitted_0 is Written ==> output_of(cli) is Some),
        RunPhaseView::Done => false,
    }
}

/// The phase fits the command and its indices are in range.
pub open spec fn phase_ok(cli: Cli, ntokens: int, p: RunPhaseView) -> bool {
    match cli.command {
        Command::Ui(_) => match p {
            RunPhaseView::UiAwaitTokens => true,
            RunPhaseView::UiAwaitNodes(i) => i < ntokens,
            RunPhaseView::AwaitEmit => true,
            RunPhaseView::Done => true,
            _ => false,
        },
        Command::Convert(a) => match p {
            RunPhaseView::ConvertAwaitInput => true,
            RunPhaseView::ConvertAwaitKiwi => true,
            RunPhaseView::ConvertAwaitResponse(_) => true,
            RunPhaseView::ConvertAwaitNode => true,
            RunPhaseView::ConvertAwaitDir(_) => a.dump_assets is Some,
            RunPhaseView::ConvertAwaitWrite(_, assets, k) => k < assets.svg_files.len(),
            RunPhaseView::ConvertAwaitTokens(_, _) => true,
            RunPhaseView::ConvertAwaitImages(_, _, i) => i < ntokens && a.file_key is Some,
            RunPhaseView::ConvertAwaitCount(_, _) => true,
            RunPhaseView::AwaitEmit => true,
            RunPhaseView::Done => true,
            _ => false,
        },
    }
}

impl Runner {
    /// The runner stands in a phase of its own command.
    pub open spec fn wf(&self) -> bool {
        phase_ok(self.cli, self.tokens@.len() as int, self.phase@)
    }
}

fn concat3(a: &str, b: &str, c: &str) -> (r: String)
    ensures
        r@ == a@ + b@ + c@,
{
    let mut s = owned(a);
    s.push_str(b);
    s.push_str(c);
    s
}

fn joined(a: &str, b: &str) -> (r: String)
    ensures
        r@ == a@ + b@,
{
    let mut s = owned(a);
    s.push_str(b);
    s
}

fn clone_refs(v: &Vec<(String, String)>) -> (r: Vec<(String, String)>)
    ensures
        crate::figma::text_pairs(r@) == crate::figma::text_pairs(v@),
{
    let mut out: Vec<(String, String)> = Vec::new();
    let mut i: usize = 0;
    while i < v.len()
        invariant
            0 <= i <= v.len(),
            out@.len() == i,
            forall|j: int| 0 <= j < i ==> (#[trigger] out@[j]).0@ == v@[j].0@ && out@[j].1@ == v@[j].1@,
        decreases v.len() - i,
    {
        out.push((v[i].0.clone(), v[i].1.clone()));
        i = i + 1;
    }
    assert(crate::figma::text_pairs(out@) =~= crate::figma::text_pairs(v@));
    out
}

fn set_screen(schema: &mut SemanticSchema, screen: &Option<String>)
    ensures
        final(schema)@ == with_screen(old(schema)@, opt_text(*screen)),
{
    match screen {
        Some(n) => {
            schema.screen = n.clone();
        },
        None => {},
    }
}

fn clear_path_exec(schema: &mut SemanticSchema, index: Option<usize>)
    ensures
        final(schema)@ == clear_image_path(old(schema)@, index),
{
    match index {
        Some(i) => {
            if i < schema.elements.len() {
                schema.elements[i].image_path = None;
                proof {
                    assert(crate::schema::elements_view(schema.elements@) =~= old(schema)@.elements.update(
                        i as int,
                        ElementView { image_path: None, ..old(schema)@.elements[i as int] },
                    ));
                }
            }
        },
        None => {},
    }
}

impl Runner {
    fn finish(&mut self, r: Result<(), String>, log: Option<String>) -> (step: RunStep)
        ensures
            final(self).cli == old(self).cli,
            final(self).tokens == old(self).tokens,
            (final(self)@.tokens, final(self)@.phase, step@) == finish_with(
                old(self)@.tokens,
                match r {
                    Ok(()) => Ok(()),
                    Err(e) => Err(e@),
                },
                opt_text(log),
            ),
    {
        self.phase = RunPhase::Done;
        RunStep { log, action: RunAction::Finish(r) }
    }

    fn emit(&mut self, schema: SemanticSchema, log: Option<String>) -> (step: RunStep)
        ensures
            final(self).cli == old(self).cli,
            final(self).tokens == old(self).tokens,
            (final(self)@.tokens, final(self)@.phase, step@) == emit_schema(old(self).cli, old(self)@.tokens, schema@, opt_text(log)),
    {
        let output = match &self.cli.command {
            Command::Ui(a) => crate::figma::clone_text(&a.output),
            Command::Convert(a) => crate::figma::clone_text(&a.output),
        };
        self.phase = RunPhase::AwaitEmit;
        RunStep { log, action: RunAction::Emit { schema, output } }
    }

    fn ui_fetch(&mut self, i: usize, log: Option<String>) -> (step: RunStep)
        requires
            old(self).cli.command is Ui,
            i < old(self).tokens@.len(),
        ensures
            final(self).cli == old(self).cli,
            final(self).tokens == old(self).tokens,
            final(self).wf(),
            (final(self)@.tokens, final(self)@.phase, step@) == ui_fetch(old(self).cli.command->Ui_0, old(self)@.tokens, i as int, opt_text(log)),
    {
        let (file, node) = match &self.cli.command {
            Command::Ui(a) => (a.file.clone(), a.node.clone()),
            Command::Convert(_) => (String::new(), String::new()),
        };
        let token = self.tokens[i].clone();
        self.phase = RunPhase::UiAwaitNodes(i);
        RunStep { log, action: RunAction::FetchNodes { token, file, node } }
    }

    fn ui_with_tokens(&mut self, tokens: Vec<String>) -> (step: RunStep)
        requires
            old(self).cli.command is Ui,
        ensures
            final(self).cli == old(self).cli,
            final(self).wf(),
            (final(self)@.tokens, final(self)@.phase, step@) == ui_with_tokens(old(self).cli.command->Ui_0, texts(tokens@)),
    {
        self.tokens = tokens;
        if self.tokens.len() == 0 {
            self.finish(Err(owned("no Figma token. set FIGMA_TOKEN env, --token flag, or add to secrets.properties")), None)
        } else {
            self.ui_fetch(0, None)
        }
    }

    fn count_svgs(&mut self, schema: SemanticSchema, dir: String, log: Option<String>) -> (step: RunStep)
        requires
            old(self).cli.command is Convert,
        ensures
            final(self).cli == old(self).cli,
            final(self).tokens == old(self).tokens,
            final(self).wf(),
            (final(self)@.tokens, final(self)@.phase, step@) == count_svgs(old(self)@.tokens, schema@, dir@, opt_text(log)),
    {
        let d = dir.clone();
        self.phase = RunPhase::ConvertAwaitCount(schema, dir);
        RunStep { log, action: RunAction::CountSvgs { dir: d } }
    }

    fn image_fetch(&mut self, schema: SemanticSchema, assets: AssetContext, i: usize, log: Option<String>) -> (step: RunStep)
        requires
            old(self).cli.command is Convert,
            old(self).cli.command->Convert_0.file_key is Some,
            i < old(self).tokens@.len(),
        ensures
            final(self).cli == old(self).cli,
            final(self).tokens == old(self).tokens,
            final(self).wf(),
            (final(self)@.tokens, final(self)@.phase, step@) == image_fetch(
                old(self).cli.command->Convert_0,
                old(self)@.tokens,
                schema@,
                assets@,
                i as int,
                opt_text(log),
            ),
    {
        let file_key = match &self.cli.command {
            Command::Convert(a) => match &a.file_key {
                Some(k) => k.clone(),
                None => String::new(),
            },
            Command::Ui(_) => String::new(),
        };
        let token = self.tokens[i].clone();
        let refs = clone_refs(&assets.image_refs);
        let dir = assets.dir.clone();
        self.phase = RunPhase::ConvertAwaitImages(schema, assets, i);
        RunStep { log, action: RunAction::FetchImages { token, file_key, refs, dir } }
    }

    fn images_start(&mut self, schema: SemanticSchema, assets: AssetContext) -> (step: RunStep)
        requires
            old(self).cli.command is Convert,
        ensures
            final(self).cli == old(self).cli,
            final(self).tokens == old(self).tokens,
            final(self).wf(),
            (final(self)@.tokens, final(self)@.phase, step@) == images_start(old(self).cli.command->Convert_0, old(self)@.tokens, schema@, assets@),
    {
        let has_key = match &self.cli.command {
            Command::Convert(a) => a.file_key.is_some(),
            Command::Ui(_) => false,
        };
        if has_key {
            if self.tokens.len() > 0 {
                self.image_fetch(schema, assets, 0, None)
            } else {
                let dir = assets.dir.clone();
                self.count_svgs(schema, dir, None)
            }
        } else {
            let mut msg = u64_text(assets.image_refs.len() as u64);
            msg.push_str(" image refs collected but no --file-key provided for REST fetch");
            let dir = assets.dir.clone();
            self.count_svgs(schema, dir, Some(msg))
        }
    }

    fn after_writes(&mut self, schema: SemanticSchema, assets: AssetContext) -> (step: RunStep)
        requires
            old(self).cli.command is Convert,
        ensures
            final(self).cli == old(self).cli,
            final(self).wf(),
            (final(self)@.tokens, final(self)@.phase, step@) == after_writes(old(self).cli.command->Convert_0, old(self)@.tokens, schema@, assets@),
    {
        if assets.image_refs.len() > 0 {
            let token = match &self.cli.command {
                Command::Convert(a) => crate::figma::clone_text(&a.token),
                Command::Ui(_) => None,
            };
            match token {
                Some(t) => {
                    let mut v: Vec<String> = Vec::new();
                    v.push(t);
                    self.tokens = v;
                    proof {
                        assert(texts(self.tokens@) =~= seq![old(self).cli.command->Convert_0.token->0@]);
                    }
                    self.images_start(schema, assets)
                },
                None => {
                    self.phase = RunPhase::ConvertAwaitTokens(schema, assets);
                    RunStep { log: None, action: RunAction::LoadTokens }
                },
            }
        } else {
            let dir = assets.dir.clone();
            self.count_svgs(schema, dir, None)
        }
    }

    fn write_from(&mut self, schema: SemanticSchema, assets: AssetContext, k: usize) -> (step: RunStep)
        requires
            old(self).cli.command is Convert,
        ensures
            final(self).cli == old(self).cli,
            final(self).wf(),
            (final(self)@.tokens, final(self)@.phase, step@) == write_from(old(self).cli.command->Convert_0, old(self)@.tokens, schema@, assets@, k as int),
    {
        if k < assets.svg_files.len() {
            let dir = assets.dir.clone();
            let file_name = assets.svg_files[k].file_name.clone();
            let content = assets.svg_files[k].content.clone();
            proof {
                assert(assets@.svg_files[k as int] == assets.svg_files@[k as int]@);
            }
            self.phase = RunPhase::ConvertAwaitWrite(schema, assets, k);
            RunStep { log: None, action: RunAction::WriteAsset { dir, file_name, content } }
        } else {
            self.after_writes(schema, assets)
        }
    }

    fn convert_with_assets(&mut self, node: FigmaNode, now: u64) -> (step: RunStep)
        requires
            old(self).cli.command is Convert,
            old(self).cli.command->Convert_0.dump_assets is Some,
        ensures
            final(self).cli == old(self).cli,
            final(self).wf(),
            (final(self)@.tokens, final(self)@.phase, step@) == convert_with_assets(
                old(self).cli.command->Convert_0,
                old(self)@.tokens,
                node@,
                opt_text(old(self).cli.command->Convert_0.dump_assets)->0,
                now,
            ),
    {
        let (dir, screen) = match &self.cli.command {
            Command::Convert(a) => (
                match &a.dump_assets {
                    Some(d) => d.clone(),
                    None => String::new(),
                },
                crate::figma::clone_text(&a.screen),
            ),
            Command::Ui(_) => (String::new(), None),
        };
        let mut ctx = Some(AssetContext::new(dir));
        let ghost a0 = opt_assets(ctx);
        let mut schema = extract_schema_at(&node, None, &mut ctx, now);
        set_screen(&mut schema, &screen);
        proof {
            let o = crate::figma::frame_origin(node@, None);
            crate::figma::lemma_walk_keeps_assets(node@, o.0, o.1, crate::figma::WalkState { elements: seq![], assets: a0 });
        }
        let assets = match ctx {
            Some(c) => c,
            None => AssetContext::new(String::new()),
        };
        self.write_from(schema, assets, 0)
    }

    fn convert_node(&mut self, node: FigmaNode, log: Option<String>, now: u64) -> (step: RunStep)
        requires
            old(self).cli.command is Convert,
        ensures
            final(self).cli == old(self).cli,
            final(self).wf(),
            (final(self)@.tokens, final(self)@.phase, step@) == convert_node(
                old(self).cli.command->Convert_0,
                old(self).cli,
                old(self)@.tokens,
                node@,
                opt_text(log),
                now,
            ),
    {
        let (dir, screen) = match &self.cli.command {
            Command::Convert(a) => (crate::figma::clone_text(&a.dump_assets), crate::figma::clone_text(&a.screen)),
            Command::Ui(_) => (None, None),
        };
        match dir {
            Some(d) => {
                self.phase = RunPhase::ConvertAwaitDir(node);
                RunStep { log, action: RunAction::CreateDir { dir: d } }
            },
            None => {
                let mut none: Option<AssetContext> = None;
                let mut schema = extract_schema_at(&node, None, &mut none, now);
                set_screen(&mut schema, &screen);
                self.emit(schema, log)
            },
        }
    }
}


impl Runner {
    fn emitted(&mut self, r: EmitResult) -> (step: RunStep)
        requires
            r@ is Written ==> output_of(old(self).cli) is Some,
        ensures
            final(self).cli == old(self).cli,
            final(self).tokens == old(self).tokens,
            (final(self)@.tokens, final(self)@.phase, step@) == emitted(old(self).cli, old(self)@.tokens, r@),
    {
        match r {
            EmitResult::Printed => self.finish(Ok(()), None),
            EmitResult::Written => {
                let out = match &self.cli.command {
                    Command::Ui(a) => crate::figma::clone_text(&a.output),
                    Command::Convert(a) => crate::figma::clone_text(&a.output),
                };
                let path = match out {
                    Some(p) => p,
                    None => String::new(),
                };
                let msg = joined("wrote ", path.as_str());
                proof {
                    assert(msg@ =~= "wrote "@ + output_of(old(self).cli)->0);
                }
                self.finish(Ok(()), Some(msg))
            },
            EmitResult::YamlFailed(err) => self.finish(Err(joined("yaml error: ", err.as_str())), None),
            EmitResult::WriteFailed(err) => self.finish(Err(joined("write error: ", err.as_str())), None),
        }
    }

    fn ui_step(&mut self, phase: RunPhase, event: RunEvent, now: u64) -> (step: RunStep)
        requires
            old(self).cli.command is Ui,
            phase_ok(old(self).cli, old(self).tokens@.len() as int, phase@),
            run_event_fits(old(self).cli, phase@, event@),
        ensures
            final(self).cli == old(self).cli,
            final(self).wf(),
            (final(self)@.tokens, final(self)@.phase, step@) == run_next(old(self).cli, old(self)@.tokens, phase@, event@, now),
    {
        match phase {
            RunPhase::UiAwaitTokens => match event {
                RunEvent::Tokens(v) => self.ui_with_tokens(v),
                _ => self.finish(Err(String::new()), None),
            },
            RunPhase::UiAwaitNodes(i) => match event {
                RunEvent::Nodes(Ok(resp)) => {
                    assert(i < self.tokens.len());
                    if resp.nodes.len() == 0 {
                        self.finish(Err(owned("no nodes returned from Figma API")), None)
                    } else {
                        let mut none: Option<AssetContext> = None;
                        let schema = extract_schema_at(&resp.nodes[0].1.document, None, &mut none, now);
                        proof {
                            assert(response_view(resp)[0].1 == resp.nodes@[0].1.document@);
                        }
                        self.emit(schema, None)
                    }
                },
                RunEvent::Nodes(Err(err)) => {
                    if i + 1 < self.tokens.len() {
                        let log = if contains_text(err.as_str(), "429") {
                            let n = u64_text((i + 1) as u64);
                            Some(concat3("token ", n.as_str(), " rate limited, trying next"))
                        } else {
                            None
                        };
                        self.ui_fetch(i + 1, log)
                    } else {
                        self.finish(Err(err), None)
                    }
                },
                _ => self.finish(Err(String::new()), None),
            },
            RunPhase::AwaitEmit => match event {
                RunEvent::Emitted(r) => self.emitted(r),
                _ => self.finish(Err(String::new()), None),
            },
            _ => self.finish(Err(String::new()), None),
        }
    }

    fn kiwi_step(&mut self, doc: KiwiDocument, now: u64) -> (step: RunStep)
        requires
            old(self).cli.command is Convert,
        ensures
            final(self).cli == old(self).cli,
            final(self).wf(),
            (final(self)@.tokens, final(self)@.phase, step@) == run_next(
                old(self).cli,
                old(self)@.tokens,
                RunPhaseView::ConvertAwaitKiwi,
                RunEventView::Kiwi(Ok(doc.node_changes@)),
                now,
            ),
    {
        let count = u64_text(doc.node_changes.len() as u64);
        let log = joined(count.as_str(), " nodeChanges parsed");
        let frame = match &self.cli.command {
            Command::Convert(a) => crate::figma::clone_text(&a.frame),
            Command::Ui(_) => None,
        };
        if !has_tree(&doc) {
            self.phase = RunPhase::Done;
            return RunStep {
                log: Some(log),
                action: RunAction::Abort(owned("scenegraph has no root record or its parent links form a cycle")),
            };
        }
        let tree = convert_to_figma_tree(&doc);
        match frame {
            None => self.convert_node(tree, Some(log), now),
            Some(name) => match crate::cmd::find_frame(&tree, name.as_str()) {
                None => self.finish(Err(concat3("frame '", name.as_str(), "' not found in kiwi tree")), Some(log)),
                Some(f) => self.convert_node(f, Some(log), now),
            },
        }
    }

    fn convert_step(&mut self, phase: RunPhase, event: RunEvent, now: u64) -> (step: RunStep)
        requires
            old(self).cli.command is Convert,
            phase_ok(old(self).cli, old(self).tokens@.len() as int, phase@),
            run_event_fits(old(self).cli, phase@, event@),
        ensures
            final(self).cli == old(self).cli,
            final(self).wf(),
            (final(self)@.tokens, final(self)@.phase, step@) == run_next(old(self).cli, old(self)@.tokens, phase@, event@, now),
    {
        let (stdin, kiwi) = match &self.cli.command {
            Command::Convert(a) => (text_eq(a.input.as_str(), "-"), a.kiwi),
            Command::Ui(_) => (false, false),
        };
        match phase {
            RunPhase::ConvertAwaitInput => match event {
                RunEvent::Input(Err(err)) => {
                    let msg = if stdin {
                        joined("stdin read error: ", err.as_str())
                    } else {
                        let input = match &self.cli.command {
                            Command::Convert(a) => a.input.clone(),
                            Command::Ui(_) => String::new(),
                        };
                        let head = concat3("read ", input.as_str(), ": ");
                        joined(head.as_str(), err.as_str())
                    };
                    self.finish(Err(msg), None)
                },
                RunEvent::Input(Ok(json)) => {
                    if kiwi {
                        self.phase = RunPhase::ConvertAwaitKiwi;
                        RunStep { log: None, action: RunAction::ParseKiwi { json } }
                    } else {
                        self.phase = RunPhase::ConvertAwaitResponse(json.clone());
                        RunStep { log: None, action: RunAction::ParseNodesResponse { json } }
                    }
                },
                _ => self.finish(Err(String::new()), None),
            },
            RunPhase::ConvertAwaitKiwi => match event {
                RunEvent::Kiwi(Err(err)) => self.finish(Err(joined("kiwi parse error: ", err.as_str())), None),
                RunEvent::Kiwi(Ok(doc)) => self.kiwi_step(doc, now),
                _ => self.finish(Err(String::new()), None),
            },
            RunPhase::ConvertAwaitResponse(json) => match event {
                RunEvent::NodesResponse(Some(resp)) => {
                    if resp.nodes.len() == 0 {
                        self.finish(Err(owned("no nodes in FileNodesResponse")), None)
                    } else {
                        let node = resp.nodes[0].1.document.deep_copy();
                        proof {
                            assert(response_view(resp)[0].1 == resp.nodes@[0].1.document@);
                        }
                        self.convert_node(node, None, now)
                    }
                },
                RunEvent::NodesResponse(None) => {
                    self.phase = RunPhase::ConvertAwaitNode;
                    RunStep { log: None, action: RunAction::ParseNode { json } }
                },
                _ => self.finish(Err(String::new()), None),
            },
            RunPhase::ConvertAwaitNode => match event {
                RunEvent::Node(Err(err)) => self.finish(
                    Err(joined("JSON is neither FileNodesResponse nor FigmaNode: ", err.as_str())),
                    None,
                ),
                RunEvent::Node(Ok(n)) => self.convert_node(n, None, now),
                _ => self.finish(Err(String::new()), None),
            },
            RunPhase::ConvertAwaitDir(n) => match event {
                RunEvent::Continue => self.convert_with_assets(n, now),
                _ => self.finish(Err(String::new()), None),
            },
            RunPhase::ConvertAwaitWrite(schema, assets, k) => match event {
                RunEvent::Written(ok) => {
                    assert(k < assets.svg_files.len());
                    let mut schema = schema;
                    if !ok {
                        let index = assets.svg_files[k].element_index;
                        proof {
                            assert(assets@.svg_files[k as int] == assets.svg_files@[k as int]@);
                        }
                        clear_path_exec(&mut schema, index);
                    }
                    self.write_from(schema, assets, k + 1)
                },
                _ => self.finish(Err(String::new()), None),
            },
            RunPhase::ConvertAwaitTokens(schema, assets) => match event {
                RunEvent::Tokens(v) => {
                    self.tokens = v;
                    self.images_start(schema, assets)
                },
                _ => self.finish(Err(String::new()), None),
            },
            RunPhase::ConvertAwaitImages(schema, assets, i) => match event {
                RunEvent::Images(Ok(n)) => {
                    let count = u64_text(n as u64);
                    let msg = concat3(count.as_str(), " images fetched to ", assets.dir.as_str());
                    let dir = assets.dir.clone();
                    self.count_svgs(schema, dir, Some(msg))
                },
                RunEvent::Images(Err(err)) => {
                    assert(i < self.tokens.len());
                    let msg = joined("image fetch error: ", err.as_str());
                    if i + 1 < self.tokens.len() {
                        self.image_fetch(schema, assets, i + 1, Some(msg))
                    } else {
                        let dir = assets.dir.clone();
                        self.count_svgs(schema, dir, Some(msg))
                    }
                },
                _ => self.finish(Err(String::new()), None),
            },
            RunPhase::ConvertAwaitCount(schema, dir) => match event {
                RunEvent::Count(c) => {
                    let log = if c > 0 {
                        let count = u64_text(c as u64);
                        Some(concat3(count.as_str(), " SVGs saved to ", dir.as_str()))
                    } else {
                        None
                    };
                    self.emit(schema, log)
                },
                _ => self.finish(Err(String::new()), None),
            },
            RunPhase::AwaitEmit => match event {
                RunEvent::Emitted(r) => self.emitted(r),
                _ => self.finish(Err(String::new()), None),
            },
            _ => self.finish(Err(String::new()), None),
        }
    }

    /// Advances the command with the caller's report of the last action, at
    /// the time `now_secs` (seconds since the Unix epoch; see `run_next`).
    pub fn step_at(&mut self, event: RunEvent, now_secs: u64) -> (step: RunStep)
        requires
            old(self).wf(),
            run_event_fits(old(self).cli, old(self)@.phase, event@),
        ensures
            final(self).cli == old(self).cli,
            final(self).wf(),
            (final(self)@.tokens, final(self)@.phase, step@) == run_next(
                old(self).cli,
                old(self)@.tokens,
                old(self)@.phase,
                event@,
                now_secs,
            ),
    {
        let mut phase = RunPhase::Done;
        std::mem::swap(&mut phase, &mut self.phase);
        let is_ui = match &self.cli.command {
            Command::Ui(_) => true,
            Command::Convert(_) => false,
        };
        if is_ui {
            self.ui_step(phase, event, now_secs)
        } else {
            self.convert_step(phase, event, now_secs)
        }
    }

    /// Advances the command with the caller's report of the last action, a
    /// schema made in this step taking the current time (see `run_next`).
    pub fn step(&mut self, event: RunEvent) -> (step: RunStep)
        requires
            old(self).wf(),
            run_event_fits(old(self).cli, old(self)@.phase, event@),
        ensures
            final(self).cli == old(self).cli,
            final(self).wf(),
            exists|secs: u64|
                (final(self)@.tokens, final(self)@.phase, step@) == #[trigger] run_next(
                    old(self).cli,
                    old(self)@.tokens,
                    old(self)@.phase,
                    event@,
                    secs,
                ),
    {
        let now = crate::figma::unix_seconds_now();
        self.step_at(event, now)
    }
}

/// Starts a command (see `run_start`): the runner and its first step.
pub fn run(cli: Cli) -> (r: (Runner, RunStep))
    ensures
        r.0.cli == cli,
        r.0.wf(),
        (r.0@.tokens, r.0@.phase, r.1@) == run_start(cli),
{
    let mut runner = Runner { cli, tokens: Vec::new(), phase: RunPhase::Done };
    proof {
        assert(texts(runner.tokens@) =~= seq![]);
    }
    let start = match &runner.cli.command {
        Command::Ui(a) => match &a.token {
            Some(t) => Some(t.clone()),
            None => None,
        },
        Command::Convert(_) => None,
    };
    let is_ui = match &runner.cli.command {
        Command::Ui(_) => true,
        Command::Convert(_) => false,
    };
    if is_ui {
        match start {
            Some(t) => {
                let mut v: Vec<String> = Vec::new();
                v.push(t);
                proof {
                    assert(texts(v@) =~= seq![runner.cli.command->Ui_0.token->0@]);
                }
                let step = runner.ui_with_tokens(v);
                (runner, step)
            },
            None => {
                runner.phase = RunPhase::UiAwaitTokens;
                (runner, RunStep { log: None, action: RunAction::LoadTokens })
            },
        }
    } else {
        let (path, stdin) = match &runner.cli.command {
            Command::Convert(a) => (a.input.clone(), text_eq(a.input.as_str(), "-")),
            Command::Ui(_) => (String::new(), false),
        };
        runner.phase = RunPhase::ConvertAwaitInput;
        (runner, RunStep { log: None, action: RunAction::ReadInput { path, stdin } })
    }
}


// ---------------------------------------------------------------------------
// Laws

/// The frame found by name is a frame, component or instance whose name is
/// the one asked for, ignoring ASCII case; a tree that is itself such a
/// frame is what is found.
pub proof fn lemma_found_frame_named(n: FigmaNodeView, name: Seq<char>)
    ensures
        find_frame_in(n, name) matches Some(f) ==> frame_named(f, name),
        frame_named(n, name) ==> find_frame_in(n, name) == Some(n),
    decreases n,
{
    if !frame_named(n, name) {
        match n.children {
            Some(c) => lemma_found_frame_list_named(c, c.len() as int, name),
            None => {},
        }
    }
}

/// A frame found in a list of trees is named as asked.
pub proof fn lemma_found_frame_list_named(cs: Seq<FigmaNodeView>, k: int, name: Seq<char>)
    ensures
        find_frame_list(cs, k, name) matches Some(f) ==> frame_named(f, name),
    decreases cs, k,
{
    if 0 < k <= cs.len() {
        lemma_found_frame_list_named(cs, k - 1, name);
        lemma_found_frame_named(cs[k - 1], name);
    }
}

proof fn lemma_add_token(ts: Seq<Seq<char>>, t: Seq<char>)
    ensures
        ts.len() <= add_token(ts, t).len(),
        add_token(ts, t).subrange(0, ts.len() as int) == ts,
        ts.no_duplicates() ==> add_token(ts, t).no_duplicates(),
{
    assert(add_token(ts, t).subrange(0, ts.len() as int) =~= ts);
    if !ts.contains(t) && ts.no_duplicates() {
        let r = ts.push(t);
        assert forall|i: int, j: int| 0 <= i < r.len() && 0 <= j < r.len() && i != j implies r[i] != r[j] by {
            if i == ts.len() {
                assert(r[j] == ts[j]);
            } else if j == ts.len() {
                assert(r[i] == ts[i]);
            }
        }
    }
}

proof fn lemma_prefix_trans(a: Seq<Seq<char>>, b: Seq<Seq<char>>, c: Seq<Seq<char>>)
    requires
        a.len() <= b.len() <= c.len(),
        b.subrange(0, a.len() as int) == a,
        c.subrange(0, b.len() as int) == b,
    ensures
        c.subrange(0, a.len() as int) == a,
{
    assert forall|i: int| 0 <= i < a.len() implies c.subrange(0, a.len() as int)[i] == a[i] by {
        assert(c.subrange(0, b.len() as int)[i] == b[i]);
        assert(b.subrange(0, a.len() as int)[i] == a[i]);
    }
    assert(c.subrange(0, a.len() as int) =~= a);
}

proof fn lemma_tokens_after_line(ts: Seq<Seq<char>>, line: Seq<char>)
    ensures
        ts.len() <= tokens_after_line(ts, line).len(),
        tokens_after_line(ts, line).subrange(0, ts.len() as int) == ts,
        ts.no_duplicates() ==> tokens_after_line(ts, line).no_duplicates(),
{
    let p1 = "FIGMA_TOKEN="@;
    let p2 = "FIGMA_TOKEN_2="@;
    let ts1 = if starts_with(line, p1) {
        add_token(ts, trimmed(line.subrange(p1.len() as int, line.len() as int)))
    } else {
        ts
    };
    assert(ts.subrange(0, ts.len() as int) =~= ts);
    lemma_add_token(ts, trimmed(line.subrange(p1.len() as int, line.len() as int)));
    assert(ts1.subrange(0, ts1.len() as int) =~= ts1);
    lemma_add_token(ts1, trimmed(line.subrange(p2.len() as int, line.len() as int)));
    lemma_prefix_trans(ts, ts1, tokens_after_line(ts, line));
}

proof fn lemma_tokens_after_lines(ts: Seq<Seq<char>>, lines: Seq<Seq<char>>, k: int)
    ensures
        ts.len() <= tokens_after_lines(ts, lines, k).len(),
        tokens_after_lines(ts, lines, k).subrange(0, ts.len() as int) == ts,
        ts.no_duplicates() ==> tokens_after_lines(ts, lines, k).no_duplicates(),
    decreases k,
{
    if k <= 0 || k > lines.len() {
        assert(ts.subrange(0, ts.len() as int) =~= ts);
    } else {
        lemma_tokens_after_lines(ts, lines, k - 1);
        let mid = tokens_after_lines(ts, lines, k - 1);
        lemma_tokens_after_line(mid, lines[k - 1]);
        lemma_prefix_trans(ts, mid, tokens_after_lines(ts, lines, k));
    }
}

/// Reading a secrets file keeps the tokens already gathered, in front and in
/// order, and adds no token twice: a list without repeats stays without.
pub proof fn lemma_secret_tokens_extend(ts: Seq<Seq<char>>, content: Seq<char>)
    ensures
        ts.len() <= tokens_after_secrets(ts, content).len(),
        tokens_after_secrets(ts, content).subrange(0, ts.len() as int) == ts,
        ts.no_duplicates() ==> tokens_after_secrets(ts, content).no_duplicates(),
{
    lemma_tokens_after_lines(ts, lines_of(content), lines_of(content).len() as int);
}

/// `ui` with `--token` uses that token alone and fetches with it at once;
/// without the flag it first gathers the tokens.
pub proof fn lemma_ui_token_flag(cli: Cli)
    requires
        cli.command is Ui,
    ensures
        cli.command->Ui_0.token matches Some(t) ==> ({
            let r = run_start(cli);
            &&& r.0 == seq![t@]
            &&& r.1 == RunPhaseView::UiAwaitNodes(0)
            &&& r.2.action == (RunActionView::FetchNodes {
                token: t@,
                file: cli.command->Ui_0.file@,
                node: cli.command->Ui_0.node@,
            })
        }),
        cli.command->Ui_0.token is None ==> run_start(cli).2.action == RunActionView::LoadTokens,
{
}

/// A `ui` fetch that fails while tokens remain is retried with the next
/// token, with a message exactly when the error mentions `429`; when the
/// last token fails, its error is the command's error.
pub proof fn lemma_ui_token_rotation(cli: Cli, tokens: Seq<Seq<char>>, i: usize, err: Seq<char>, secs: u64)
    requires
        cli.command is Ui,
        i < tokens.len() <= usize::MAX,
    ensures
        ({
            let r = run_next(cli, tokens, RunPhaseView::UiAwaitNodes(i), RunEventView::Nodes(Err(err)), secs);
            &&& i + 1 < tokens.len() ==> {
                &&& r.1 == RunPhaseView::UiAwaitNodes((i + 1) as usize)
                &&& r.2.action == (RunActionView::FetchNodes {
                    token: tokens[i + 1],
                    file: cli.command->Ui_0.file@,
                    node: cli.command->Ui_0.node@,
                })
                &&& (r.2.log is Some <==> occurs_in(err, "429"@))
            }
            &&& i + 1 == tokens.len() ==> r.1 == RunPhaseView::Done && r.2.action == RunActionView::Finish(Err(err))
        }),
{
}

/// A command is over exactly when its step reports its result or that it
/// cannot go on; its first step likewise.
#[verifier::rlimit(50)]
pub proof fn lemma_run_ends_with_result(cli: Cli, tokens: Seq<Seq<char>>, p: RunPhaseView, e: RunEventView, secs: u64)
    ensures
        ({
            let r = run_next(cli, tokens, p, e, secs);
            (r.1 == RunPhaseView::Done) <==> (r.2.action is Finish || r.2.action is Abort)
        }),
        ({
            let r = run_start(cli);
            (r.1 == RunPhaseView::Done) <==> (r.2.action is Finish || r.2.action is Abort)
        }),
{
}

/// `--screen` gives the schema its name and changes nothing else: a bare
/// node tree converted without asset directory is written out under that
/// name with the elements of its extraction.
pub proof fn lemma_screen_override(cli: Cli, tokens: Seq<Seq<char>>, n: FigmaNodeView, name: Seq<char>, secs: u64)
    requires
        cli.command is Convert,
        cli.command->Convert_0.dump_assets is None,
        opt_text(cli.command->Convert_0.screen) == Some(name),
    ensures
        ({
            let r = run_next(cli, tokens, RunPhaseView::ConvertAwaitNode, RunEventView::Node(Ok(n)), secs);
            &&& r.2.action is Emit
            &&& r.2.action->schema.screen == name
            &&& r.2.action->schema.elements == schema_of(n, None, None, secs).elements
            &&& r.2.action->schema.timestamp == schema_of(n, None, None, secs).timestamp
        }),
{
}

/// Without `--file-key`, recorded image fills are only reported and no
/// render is fetched; the SVG files are counted all the same.
pub proof fn lemma_no_file_key_no_fetch(a: ConvertArgs, tokens: Seq<Seq<char>>, schema: SchemaView, assets: crate::figma::AssetsView)
    requires
        a.file_key is None,
    ensures
        images_start(a, tokens, schema, assets).2 == (RunStepView {
            log: Some(nat_digits(assets.image_refs.len()) + " image refs collected but no --file-key provided for REST fetch"@),
            action: RunActionView::CountSvgs { dir: assets.dir },
        }),
{
}

/// The transition reached from `t` after the events `es`, in order.
pub open spec fn run_through(cli: Cli, t: Transition, es: Seq<RunEventView>, secs: u64) -> Transition
    decreases es.len(),
{
    if es.len() == 0 {
        t
    } else {
        run_through(cli, run_next(cli, t.0, t.1, es[0], secs), es.drop_first(), secs)
    }
}

/// The events of fetches that failed with the given errors.
pub open spec fn node_failures(errs: Seq<Seq<char>>) -> Seq<RunEventView> {
    errs.map_values(|e: Seq<char>| RunEventView::Nodes(Err(e)))
}

/// The events of render fetches that failed with the given errors.
pub open spec fn image_failures(errs: Seq<Seq<char>>) -> Seq<RunEventView> {
    errs.map_values(|e: Seq<char>| RunEventView::Images(Err(e)))
}

/// `ui` tries every token in turn: after fetches with tokens `i`, `i + 1`,
/// ... have failed, the next token is tried while one is left, and when the
/// last one has failed the command ends with the last error.
pub proof fn lemma_ui_tries_every_token(
    cli: Cli,
    tokens: Seq<Seq<char>>,
    i: int,
    log: Option<Seq<char>>,
    errs: Seq<Seq<char>>,
    secs: u64,
)
    requires
        cli.command is Ui,
        tokens.len() <= usize::MAX,
        0 <= i,
        i + errs.len() <= tokens.len(),
        errs.len() == 0 ==> i < tokens.len(),
    ensures
        ({
            let a = cli.command->Ui_0;
            let r = run_through(cli, ui_fetch(a, tokens, i, log), node_failures(errs), secs);
            &&& r.0 == tokens
            &&& i + errs.len() < tokens.len() ==> {
                &&& r.1 == RunPhaseView::UiAwaitNodes((i + errs.len()) as usize)
                &&& r.2.action == (RunActionView::FetchNodes {
                    token: tokens[i + errs.len()],
                    file: a.file@,
                    node: a.node@,
                })
            }
            &&& (i + errs.len() == tokens.len() && errs.len() > 0) ==> {
                &&& r.1 == RunPhaseView::Done
                &&& r.2.action == RunActionView::Finish(Err(errs.last()))
            }
        }),
    decreases errs.len(),
{
    let a = cli.command->Ui_0;
    if errs.len() > 0 {
        let t1 = run_next(cli, tokens, RunPhaseView::UiAwaitNodes(i as usize), RunEventView::Nodes(Err(errs[0])), secs);
        assert(node_failures(errs)[0] == RunEventView::Nodes(Err(errs[0])));
        assert(node_failures(errs).drop_first() =~= node_failures(errs.drop_first()));
        assert(run_through(cli, ui_fetch(a, tokens, i, log), node_failures(errs), secs) == run_through(
            cli,
            t1,
            node_failures(errs.drop_first()),
            secs,
        ));
        if i + 1 < tokens.len() {
            let log1 = if occurs_in(errs[0], "429"@) {
                Some(rate_limited_message(i))
            } else {
                None
            };
            assert(t1 == ui_fetch(a, tokens, i + 1, log1));
            lemma_ui_tries_every_token(cli, tokens, i + 1, log1, errs.drop_first(), secs);
            if errs.len() > 1 {
                assert(errs.drop_first().last() == errs.last());
            }
        } else {
            assert(errs.drop_first().len() == 0);
            assert(node_failures(errs.drop_first()).len() == 0);
            assert(run_through(cli, t1, node_failures(errs.drop_first()), secs) == t1);
            assert(errs.last() == errs[0]);
            assert(t1 == finish_with(tokens, Err(errs[0]), None));
        }
    }
}

/// Renders are fetched with every token in turn until one fetch succeeds;
/// fetch errors never change the schema: after the last token fails, or
/// once one succeeds, the SVG files are counted and the same schema is
/// written out.
pub proof fn lemma_images_try_every_token(
    cli: Cli,
    tokens: Seq<Seq<char>>,
    schema: SchemaView,
    assets: crate::figma::AssetsView,
    i: int,
    log: Option<Seq<char>>,
    errs: Seq<Seq<char>>,
    secs: u64,
)
    requires
        cli.command is Convert,
        tokens.len() <= usize::MAX,
        0 <= i,
        i + errs.len() <= tokens.len(),
        errs.len() == 0 ==> i < tokens.len(),
    ensures
        ({
            let a = cli.command->Convert_0;
            let r = run_through(cli, image_fetch(a, tokens, schema, assets, i, log), image_failures(errs), secs);
            &&& r.0 == tokens
            &&& i + errs.len() < tokens.len() ==> {
                &&& r.1 == RunPhaseView::ConvertAwaitImages(schema, assets, (i + errs.len()) as usize)
                &&& r.2.action == (RunActionView::FetchImages {
                    token: tokens[i + errs.len()],
                    file_key: opt_text(a.file_key)->0,
                    refs: assets.image_refs,
                    dir: assets.dir,
                })
            }
            &&& (i + errs.len() == tokens.len() && errs.len() > 0) ==> r.1 == RunPhaseView::ConvertAwaitCount(
                schema,
                assets.dir,
            )
        }),
        forall|k: usize, n: usize| #[trigger] run_next(cli, tokens, RunPhaseView::ConvertAwaitImages(schema, assets, k), RunEventView::Images(Ok(n)), secs).1
            == RunPhaseView::ConvertAwaitCount(schema, assets.dir),
        forall|d: Seq<char>, c: usize| #[trigger] run_next(cli, tokens, RunPhaseView::ConvertAwaitCount(schema, d), RunEventView::Count(c), secs).2.action
            == (RunActionView::Emit { schema, output: output_of(cli) }),
    decreases errs.len(),
{
    let a = cli.command->Convert_0;
    if errs.len() > 0 {
        let t1 = run_next(cli, tokens, RunPhaseView::ConvertAwaitImages(schema, assets, i as usize), RunEventView::Images(Err(errs[0])), secs);
        assert(image_failures(errs)[0] == RunEventView::Images(Err(errs[0])));
        assert(image_failures(errs).drop_first() =~= image_failures(errs.drop_first()));
        assert(run_through(cli, image_fetch(a, tokens, schema, assets, i, log), image_failures(errs), secs)
            == run_through(cli, t1, image_failures(errs.drop_first()), secs));
        if i + 1 < tokens.len() {
            let log1 = Some("image fetch error: "@ + errs[0]);
            assert(t1 == image_fetch(a, tokens, schema, assets, i + 1, log1));
            lemma_images_try_every_token(cli, tokens, schema, assets, i + 1, log1, errs.drop_first(), secs);
        } else {
            assert(image_failures(errs.drop_first()).len() == 0);
            assert(run_through(cli, t1, image_failures(errs.drop_first()), secs) == t1);
            assert(t1.1 == RunPhaseView::ConvertAwaitCount(schema, assets.dir));
        }
    }
}

/// `convert` of a bare node tree without asset directory, from its start:
/// the input is read, it is not a nodes response, it is parsed as a tree,
/// and the tree's schema, renamed by `--screen` when given, is written out;
/// the command's result is that of the write.
pub proof fn lemma_convert_bare_node(cli: Cli, json: Seq<char>, n: FigmaNodeView, w: EmitView, secs: u64)
    requires
        cli.command is Convert,
        !cli.command->Convert_0.kiwi,
        cli.command->Convert_0.dump_assets is None,
    ensures
        ({
            let a = cli.command->Convert_0;
            let es = seq![RunEventView::Input(Ok(json)), RunEventView::NodesResponse(None), RunEventView::Node(Ok(n))];
            let r = run_through(cli, run_start(cli), es, secs);
            &&& r.2.action == (RunActionView::Emit {
                schema: with_screen(schema_of(n, None, None, secs), opt_text(a.screen)),
                output: output_of(cli),
            })
            &&& run_through(cli, run_start(cli), es.push(RunEventView::Emitted(w)), secs) == emitted(cli, seq![], w)
        }),
{
    let es = seq![RunEventView::Input(Ok(json)), RunEventView::NodesResponse(None), RunEventView::Node(Ok(n))];
    let es4 = es.push(RunEventView::Emitted(w));
    assert(es.drop_first() =~= seq![RunEventView::NodesResponse(None), RunEventView::Node(Ok(n))]);
    assert(es.drop_first().drop_first() =~= seq![RunEventView::Node(Ok(n))]);
    assert(es.drop_first().drop_first().drop_first() =~= Seq::<RunEventView>::empty());
    assert(es4.drop_first() =~= seq![RunEventView::NodesResponse(None), RunEventView::Node(Ok(n)), RunEventView::Emitted(w)]);
    assert(es4.drop_first().drop_first() =~= seq![RunEventView::Node(Ok(n)), RunEventView::Emitted(w)]);
    assert(es4.drop_first().drop_first().drop_first() =~= seq![RunEventView::Emitted(w)]);
    assert(es4.drop_first().drop_first().drop_first().drop_first() =~= Seq::<RunEventView>::empty());
    reveal_with_fuel(run_through, 5);
}

/// `convert --kiwi` without asset directory, from its start: once the
/// capture is read and parsed, and it has a tree, a named frame that is not
/// found ends the command with `frame '<name>' not found in kiwi tree`;
/// otherwise the schema of the frame (or of the whole tree), renamed by
/// `--screen` when given, is written out.
pub proof fn lemma_convert_kiwi(cli: Cli, json: Seq<char>, nodes: Seq<KiwiNode>, secs: u64)
    requires
        cli.command is Convert,
        cli.command->Convert_0.kiwi,
        cli.command->Convert_0.dump_assets is None,
        tree_of(nodes) is Some,
    ensures
        ({
            let a = cli.command->Convert_0;
            let es = seq![RunEventView::Input(Ok(json)), RunEventView::Kiwi(Ok(nodes))];
            let r = run_through(cli, run_start(cli), es, secs);
            let log = Some(nat_digits(nodes.len()) + " nodeChanges parsed"@);
            let target = match a.frame {
                None => Some(tree_of(nodes)->0),
                Some(name) => find_frame_in(tree_of(nodes)->0, name@),
            };
            &&& target is None ==> r == finish_with(
                seq![],
                Err("frame '"@ + opt_text(a.frame)->0 + "' not found in kiwi tree"@),
                log,
            )
            &&& target matches Some(f) ==> r.2 == (RunStepView {
                log,
                action: RunActionView::Emit {
                    schema: with_screen(schema_of(f, None, None, secs), opt_text(a.screen)),
                    output: output_of(cli),
                },
            })
        }),
{
    let es = seq![RunEventView::Input(Ok(json)), RunEventView::Kiwi(Ok(nodes))];
    assert(es.drop_first() =~= seq![RunEventView::Kiwi(Ok(nodes))]);
    assert(es.drop_first().drop_first() =~= Seq::<RunEventView>::empty());
    reveal_with_fuel(run_through, 3);
}

/// A `ui` fetch that gives a response without nodes ends the command with
/// `no nodes returned from Figma API`.
pub proof fn lemma_ui_no_nodes(cli: Cli, tokens: Seq<Seq<char>>, i: usize, secs: u64)
    requires
        cli.command is Ui,
    ensures
        run_next(cli, tokens, RunPhaseView::UiAwaitNodes(i), RunEventView::Nodes(Ok(seq![])), secs) == finish_with(
            tokens,
            Err("no nodes returned from Figma API"@),
            None,
        ),
{
}

/// `run` is the command it is given: its first step is that of `ui` or of
/// `convert` with the command's arguments, and so is each next step, so a
/// whole run follows that command alone.
pub proof fn lemma_run_is_the_command(
    cli: Cli,
    tokens: Seq<Seq<char>>,
    p: RunPhaseView,
    e: RunEventView,
    secs: u64,
)
    ensures
        cli.command matches Command::Ui(a) ==> run_start(cli) == ui_start(a) && run_next(cli, tokens, p, e, secs)
            == ui_next(cli, a, tokens, p, e, secs),
        cli.command matches Command::Convert(a) ==> run_start(cli) == convert_start(a) && run_next(
            cli,
            tokens,
            p,
            e,
            secs,
        ) == convert_next(cli, a, tokens, p, e, secs),
{
}

/// `convert` of a nodes response without asset directory, from its start:
/// the schema of the response's first node, renamed by `--screen` when
/// given, is written out; a response without nodes ends the command with
/// `no nodes in FileNodesResponse`.
pub proof fn lemma_convert_response(
    cli: Cli,
    json: Seq<char>,
    resp: Seq<(Seq<char>, FigmaNodeView)>,
    secs: u64,
)
    requires
        cli.command is Convert,
        !cli.command->Convert_0.kiwi,
        cli.command->Convert_0.dump_assets is None,
    ensures
        ({
            let a = cli.command->Convert_0;
            let es = seq![RunEventView::Input(Ok(json)), RunEventView::NodesResponse(Some(resp))];
            let r = run_through(cli, run_start(cli), es, secs);
            &&& resp.len() > 0 ==> r.2.action == (RunActionView::Emit {
                schema: with_screen(schema_of(resp[0].1, None, None, secs), opt_text(a.screen)),
                output: output_of(cli),
            })
            &&& resp.len() == 0 ==> r == finish_with(seq![], Err("no nodes in FileNodesResponse"@), None)
        }),
{
    let es = seq![RunEventView::Input(Ok(json)), RunEventView::NodesResponse(Some(resp))];
    assert(es.drop_first() =~= seq![RunEventView::NodesResponse(Some(resp))]);
    assert(es.drop_first().drop_first() =~= Seq::<RunEventView>::empty());
    reveal_with_fuel(run_through, 3);
}

/// The schema a phase of `convert` carries toward being written out, if any.
pub open spec fn carried_schema(p: RunPhaseView) -> Option<SchemaView> {
    match p {
        RunPhaseView::ConvertAwaitWrite(s, _, _) => Some(s),
        RunPhaseView::ConvertAwaitTokens(s, _) => Some(s),
        RunPhaseView::ConvertAwaitImages(s, _, _) => Some(s),
        RunPhaseView::ConvertAwaitCount(s, _) => Some(s),
        _ => None,
    }
}

/// A transition of the asset part of `convert` under the screen name
/// `screen`: its phase carries a schema of that name or is one of the last
/// two phases, and a schema it writes out has that name.
pub open spec fn named_after_assets(t: Transition, screen: Seq<char>) -> bool {
    &&& match carried_schema(t.1) {
        Some(s) => s.screen == screen,
        None => t.1 is AwaitEmit || t.1 is Done,
    }
    &&& t.2.action is Emit ==> t.2.action->schema.screen == screen
}

/// The screen name `convert` gives its schema: the `--screen` value, else
/// the node's name.
pub open spec fn screen_for(a: ConvertArgs, n: FigmaNodeView) -> Seq<char> {
    match opt_text(a.screen) {
        Some(name) => name,
        None => n.name,
    }
}

proof fn lemma_write_from_named(a: ConvertArgs, tokens: Seq<Seq<char>>, schema: SchemaView, assets: crate::figma::AssetsView, k: int)
    ensures
        named_after_assets(write_from(a, tokens, schema, assets, k), schema.screen),
{
}

/// With an asset directory, once it exists the node's schema carried on is
/// named by `--screen` when given (else by the node).
pub proof fn lemma_assets_keep_screen_start(a: ConvertArgs, tokens: Seq<Seq<char>>, n: FigmaNodeView, dir: Seq<char>, secs: u64)
    ensures
        named_after_assets(convert_with_assets(a, tokens, n, dir, secs), screen_for(a, n)),
{
    let written = with_screen(schema_of(n, None, Some(fresh_assets(dir)), secs), opt_text(a.screen));
    lemma_write_from_named(a, tokens, written, extraction_of(n, None, Some(fresh_assets(dir))).assets->0, 0);
}

/// Every step of the asset part of `convert` keeps the schema's name: the
/// SVG writes, the token gathering, the render fetches and the SVG count
/// carry the same name on, and the schema written out has it.
#[verifier::rlimit(50)]
pub proof fn lemma_assets_keep_screen_step(
    cli: Cli,
    a: ConvertArgs,
    t: Transition,
    e: RunEventView,
    screen: Seq<char>,
    secs: u64,
)
    requires
        cli.command == Command::Convert(a),
        named_after_assets(t, screen),
    ensures
        named_after_assets(run_next(cli, t.0, t.1, e, secs), screen),
{
    match (t.1, e) {
        (RunPhaseView::ConvertAwaitWrite(schema, assets, k), RunEventView::Written(ok)) => {
            let schema2 = if ok {
                schema
            } else {
                clear_image_path(schema, assets.svg_files[k as int].element_index)
            };
            assert(schema2.screen == schema.screen);
            lemma_write_from_named(a, t.0, schema2, assets, k + 1);
        },
        _ => {},
    }
}

/// `convert` with an asset directory writes out its schema under the
/// `--screen` name when one is given (else the node's name), whatever the
/// asset work in between reports: after the directory is created, every
/// later transition keeps that name, and the schema written out has it.
pub proof fn lemma_assets_keep_screen(
    cli: Cli,
    a: ConvertArgs,
    tokens: Seq<Seq<char>>,
    n: FigmaNodeView,
    es: Seq<RunEventView>,
    secs: u64,
)
    requires
        cli.command == Command::Convert(a),
        a.dump_assets is Some,
    ensures
        named_after_assets(
            run_through(cli, run_next(cli, tokens, RunPhaseView::ConvertAwaitDir(n), RunEventView::Continue, secs), es, secs),
            screen_for(a, n),
        ),
{
    let t0 = run_next(cli, tokens, RunPhaseView::ConvertAwaitDir(n), RunEventView::Continue, secs);
    assert(t0 == convert_with_assets(a, tokens, n, opt_text(a.dump_assets)->0, secs));
    lemma_assets_keep_screen_start(a, tokens, n, opt_text(a.dump_assets)->0, secs);
    lemma_assets_keep_screen_through(cli, a, t0, es, screen_for(a, n), secs);
}

proof fn lemma_assets_keep_screen_through(
    cli: Cli,
    a: ConvertArgs,
    t: Transition,
    es: Seq<RunEventView>,
    screen: Seq<char>,
    secs: u64,
)
    requires
        cli.command == Command::Convert(a),
        named_after_assets(t, screen),
    ensures
        named_after_assets(run_through(cli, t, es, secs), screen),
    decreases es.len(),
{
    if es.len() > 0 {
        lemma_assets_keep_screen_step(cli, a, t, es[0], screen, secs);
        lemma_assets_keep_screen_through(cli, a, run_next(cli, t.0, t.1, es[0], secs), es.drop_first(), screen, secs);
    }
}

} // verus!
