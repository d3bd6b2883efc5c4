//! The orchestrator: per-event and per-message state transitions.
//!
//! The engine holds the active language-server handlers and the
//! buffer-tracking table.  Each editor event and each inbound server
//! message is turned into at most one `Action` for the integration layer
//! to perform (spawn a process, write a request, run an editor effect);
//! every decision — routing, identifier allocation, correlation, buffer
//! lifecycle — is made and checked here.

use vstd::prelude::*;
use vstd::string::StringExecFns;

use crate::errors::{EditorError, LspcError, MainLoopError};
use crate::handler::{LangServerHandler, PendingRequest};
use crate::msg::{LspMessage, RawNotification, RawResponse};
use crate::rootpath::{find_root_path, no_root, root_at, start_dir, Fs};
use crate::table::{
    has_key, keys_distinct, lemma_pairs_map_domain, lemma_pairs_map_index, lemma_pairs_map_push,
    lemma_pairs_map_update, pairs_map,
};
use crate::types::{
    is_path_prefix, ContentChange, FsPath, InlayHint, LangSettings, Location, LsConfig, Position,
    TextDocumentId, TextEdit,
};

verus! {

/// An editor-assigned buffer handle; the engine tracks buffers by the
/// numeric form of it.
pub trait BufferId: Eq {
}

impl BufferId for u64 {
}

/// An editor-originated intent, consumed exactly once by the engine.
#[derive(Debug, PartialEq)]
pub enum Event {
    Hello,
    StartServer { lang_id: String, config: LsConfig, cur_path: FsPath },
    Hover { lang_id: String, text_document: TextDocumentId, position: Position },
    GotoDefinition { lang_id: String, text_document: TextDocumentId, position: Position },
    InlayHints { lang_id: String, text_document: TextDocumentId },
    FormatDoc { lang_id: String, text_document_lines: Vec<String>, text_document: TextDocumentId },
    DidOpen { buf_id: u64, text_document: TextDocumentId },
    DidChange { buf_id: u64, version: i64, content_change: ContentChange },
}

/// The body of an outgoing request, as plain values.
#[derive(Debug, PartialEq)]
pub enum RequestParams {
    Initialize { root: FsPath, root_uri: String },
    Hover { text_document: TextDocumentId, position: Position },
    GotoDefinition { text_document: TextDocumentId, position: Position },
    InlayHints { text_document: TextDocumentId },
    Formatting { text_document: TextDocumentId, tab_size: u64, insert_spaces: bool },
}

/// The body of an outgoing notification, as plain values.
#[derive(Debug, PartialEq)]
pub enum NotificationParams {
    DidOpenTextDocument {
        text_document: TextDocumentId,
        language_id: String,
        version: i64,
        text: String,
    },
    DidChangeTextDocument {
        text_document: TextDocumentId,
        version: i64,
        content_change: ContentChange,
    },
}

/// What the integration layer is to do next.
#[derive(Debug, PartialEq)]
pub enum Action {
    /// Announce readiness to the editor.
    SayHello,
    /// Spawn the server and, on success, hand the handler back in through
    /// `register_handler`.
    SpawnServer {
        lang_id: String,
        command: Vec<String>,
        lang_settings: LangSettings,
        root: FsPath,
        root_uri: String,
    },
    /// Write one request with this identifier on the handler's transport.
    SendRequest { handler_index: usize, id: u64, params: RequestParams },
    /// Write one notification on the handler's transport.
    SendNotification { handler_index: usize, params: NotificationParams },
    /// Begin watching the document for external changes.
    WatchFile { text_document: TextDocumentId },
}

/// An editor-visible effect decided from a response.
#[derive(Debug, PartialEq)]
pub enum EditorEffect {
    Message { text: String },
    ShowHover { text_document: TextDocumentId, contents: String },
    Goto { location: Location },
    InlineHints { text_document: TextDocumentId, hints: Vec<InlayHint> },
    ApplyEdits { lines: Vec<String>, edits: Vec<TextEdit> },
}

/// Per-buffer lifecycle record.
#[derive(Debug, PartialEq)]
pub struct TrackingBuffer {
    pub lang_id: String,
    pub text_document: TextDocumentId,
    pub sent_did_open: bool,
}

impl TrackingBuffer {
    pub fn new(lang_id: String, text_document: TextDocumentId) -> (b: Self)
        ensures
            b == (TrackingBuffer { lang_id, text_document, sent_did_open: false }),
    {
        TrackingBuffer { lang_id, text_document, sent_did_open: false }
    }
}

/// No handler runs this language.
pub open spec fn no_handler_for(s: Seq<LangServerHandler>, lang: Seq<char>) -> bool {
    forall|i: int| 0 <= i < s.len() ==> (#[trigger] s[i]).lang_id@ != lang
}

/// `i` is the first handler running this language.
pub open spec fn first_handler_for(s: Seq<LangServerHandler>, lang: Seq<char>, i: int) -> bool {
    &&& 0 <= i < s.len()
    &&& s[i].lang_id@ == lang
    &&& forall|j: int| 0 <= j < i ==> (#[trigger] s[j]).lang_id@ != lang
}

/// No handler's root contains this path.
pub open spec fn no_owner_for(s: Seq<LangServerHandler>, p: Seq<Seq<char>>) -> bool {
    forall|i: int| 0 <= i < s.len() ==> !is_path_prefix((#[trigger] s[i]).root@, p)
}

/// `i` is the first handler whose root contains this path.
pub open spec fn first_owner_for(s: Seq<LangServerHandler>, p: Seq<Seq<char>>, i: int) -> bool {
    &&& 0 <= i < s.len()
    &&& is_path_prefix(s[i].root@, p)
    &&& forall|j: int| 0 <= j < i ==> !is_path_prefix((#[trigger] s[j]).root@, p)
}

proof fn lemma_first_handler_unique(s: Seq<LangServerHandler>, lang: Seq<char>, i: int, j: int)
    requires
        first_handler_for(s, lang, i),
        first_handler_for(s, lang, j),
    ensures
        i == j,
{
    if i < j {
        assert(s[i].lang_id@ != lang);
    } else if j < i {
        assert(s[j].lang_id@ != lang);
    }
}

proof fn lemma_first_owner_unique(s: Seq<LangServerHandler>, p: Seq<Seq<char>>, i: int, j: int)
    requires
        first_owner_for(s, p, i),
        first_owner_for(s, p, j),
    ensures
        i == j,
{
    if i < j {
        assert(!is_path_prefix(s[i].root@, p));
    } else if j < i {
        assert(!is_path_prefix(s[j].root@, p));
    }
}

/// Handler `i` gained exactly one pending request, `req`, under its next
/// identifier; everything else is as before.
pub open spec fn registered_with(pre: Lspc, post: Lspc, i: int, req: PendingRequest) -> bool {
    &&& 0 <= i < pre.lsp_handlers@.len()
    &&& post.lsp_handlers@.len() == pre.lsp_handlers@.len()
    &&& forall|j: int|
        0 <= j < pre.lsp_handlers@.len() && j != i ==> post.lsp_handlers@[j]
            == pre.lsp_handlers@[j]
    &&& post.lsp_handlers@[i].lang_id == pre.lsp_handlers@[i].lang_id
    &&& post.lsp_handlers@[i].lang_settings == pre.lsp_handlers@[i].lang_settings
    &&& post.lsp_handlers@[i].root == pre.lsp_handlers@[i].root
    &&& post.lsp_handlers@[i].server_capabilities == pre.lsp_handlers@[i].server_capabilities
    &&& post.lsp_handlers@[i].next_id == pre.lsp_handlers@[i].next_id + 1
    &&& post.lsp_handlers@[i].pending@ == pre.lsp_handlers@[i].pending@.push(
        (pre.lsp_handlers@[i].next_id, req),
    )
    &&& post.lsp_handlers@[i].pending_map() == pre.lsp_handlers@[i].pending_map().insert(
        pre.lsp_handlers@[i].next_id, req,
    )
    &&& !pre.lsp_handlers@[i].pending_map().contains_key(pre.lsp_handlers@[i].next_id)
    &&& post.tracking_buffers@ == pre.tracking_buffers@
}

/// The engine.
pub struct Lspc {
    pub lsp_handlers: Vec<LangServerHandler>,
    pub tracking_buffers: Vec<(u64, TrackingBuffer)>,
}

impl Lspc {
    /// Every handler is well formed and buffer identifiers are distinct.
    pub open spec fn wf(self) -> bool {
        &&& forall|i: int|
            0 <= i < self.lsp_handlers@.len() ==> (#[trigger] self.lsp_handlers@[i]).wf()
        &&& keys_distinct(self.tracking_buffers@)
    }

    /// Every handler can still allocate a request identifier.
    pub open spec fn can_allocate(self) -> bool {
        forall|i: int|
            0 <= i < self.lsp_handlers@.len() ==> (#[trigger] self.lsp_handlers@[i]).next_id
                < u64::MAX
    }

    /// The buffer-tracking table as a map.
    pub open spec fn buffers(self) -> Map<u64, TrackingBuffer> {
        pairs_map(self.tracking_buffers@)
    }

    pub fn new() -> (r: Lspc)
        ensures
            r.wf(),
            r.can_allocate(),
            r.lsp_handlers@ == Seq::<LangServerHandler>::empty(),
            r.tracking_buffers@ == Seq::<(u64, TrackingBuffer)>::empty(),
            r.buffers() == Map::<u64, TrackingBuffer>::empty(),
    {
        let r = Lspc { lsp_handlers: Vec::new(), tracking_buffers: Vec::new() };
        proof {
            assert(r.lsp_handlers@ =~= Seq::<LangServerHandler>::empty());
            assert(r.tracking_buffers@ =~= Seq::<(u64, TrackingBuffer)>::empty());
        }
        r
    }

    /// The periodic maintenance tick; at present a no-op.
    pub fn handle_timer_tick(&mut self) -> (r: Result<(), LspcError>)
        ensures
            *final(self) == *old(self),
            r == Ok::<(), LspcError>(()),
    {
        Ok(())
    }
}

/// The first handler (in registration order) running `lang_id`.
fn find_handler_for(handlers: &Vec<LangServerHandler>, lang_id: &String) -> (r: Option<usize>)
    ensures
        match r {
            Some(i) => first_handler_for(handlers@, lang_id@, i as int),
            None => no_handler_for(handlers@, lang_id@),
        },
{
    let mut i: usize = 0;
    while i < handlers.len()
        invariant
            0 <= i <= handlers@.len(),
            forall|t: int| 0 <= t < i ==> (#[trigger] handlers@[t]).lang_id@ != lang_id@,
        decreases handlers@.len() - i,
    {
        if handlers[i].lang_id.eq(lang_id) {
            return Some(i);
        }
        i += 1;
    }
    None
}

/// The first handler (in registration order) whose root contains `path`.
fn find_owner_of(handlers: &Vec<LangServerHandler>, path: &FsPath) -> (r: Option<usize>)
    ensures
        match r {
            Some(i) => first_owner_for(handlers@, path@, i as int),
            None => no_owner_for(handlers@, path@),
        },
{
    let mut i: usize = 0;
    while i < handlers.len()
        invariant
            0 <= i <= handlers@.len(),
            forall|t: int| 0 <= t < i ==> !is_path_prefix((#[trigger] handlers@[t]).root@, path@),
        decreases handlers@.len() - i,
    {
        if handlers[i].owns_path(path) {
            return Some(i);
        }
        i += 1;
    }
    None
}

/// The index of the tracking record for `buf_id`.
fn find_buffer(bufs: &Vec<(u64, TrackingBuffer)>, buf_id: u64) -> (r: Option<usize>)
    ensures
        match r {
            Some(i) => 0 <= i < bufs@.len() && bufs@[i as int].0 == buf_id,
            None => !has_key(bufs@, buf_id),
        },
{
    let mut i: usize = 0;
    while i < bufs.len()
        invariant
            0 <= i <= bufs@.len(),
            forall|t: int| 0 <= t < i ==> bufs@[t].0 != buf_id,
        decreases bufs@.len() - i,
    {
        if bufs[i].0 == buf_id {
            return Some(i);
        }
        i += 1;
    }
    None
}

impl Lspc {
    /// Register `req` with handler `idx` under a fresh identifier.
    fn send_request_to(&mut self, idx: usize, req: PendingRequest) -> (id: u64)
        requires
            old(self).wf(),
            old(self).can_allocate(),
            idx < old(self).lsp_handlers@.len(),
        ensures
            final(self).wf(),
            id == old(self).lsp_handlers@[idx as int].next_id,
            registered_with(*old(self), *final(self), idx as int, req),
    {
        let ghost pre = *self;
        let h = &mut self.lsp_handlers[idx];
        let id = h.register_request(req);
        proof {
            assert(self.lsp_handlers@ =~= pre.lsp_handlers@.update(idx as int, self.lsp_handlers@[idx as int]));
            assert forall|i: int| 0 <= i < self.lsp_handlers@.len() implies (#[trigger] self.lsp_handlers@[i]).wf() by {
                if i != idx as int {
                    assert(self.lsp_handlers@[i] == pre.lsp_handlers@[i]);
                }
            }
        }
        id
    }

    /// Replace or create the tracking record for `buf_id`.
    fn insert_buffer(&mut self, buf_id: u64, tb: TrackingBuffer)
        requires
            old(self).wf(),
        ensures
            final(self).wf(),
            final(self).lsp_handlers@ == old(self).lsp_handlers@,
            final(self).buffers() == old(self).buffers().insert(buf_id, tb),
    {
        let r = find_buffer(&self.tracking_buffers, buf_id);
        match r {
            Some(i) => {
                proof {
                    lemma_pairs_map_update(self.tracking_buffers@, i as int, tb);
                }
                self.tracking_buffers[i] = (buf_id, tb);
                proof {
                    assert forall|a: int, b: int|
                        0 <= a < b < self.tracking_buffers@.len() implies self.tracking_buffers@[a].0
                        != self.tracking_buffers@[b].0 by {
                        assert(old(self).tracking_buffers@[a].0 != old(self).tracking_buffers@[b].0);
                    }
                }
            },
            None => {
                proof {
                    lemma_pairs_map_domain(self.tracking_buffers@, buf_id);
                    lemma_pairs_map_push(self.tracking_buffers@, buf_id, tb);
                }
                self.tracking_buffers.push((buf_id, tb));
                proof {
                    let s = self.tracking_buffers@;
                    assert forall|a: int, b: int| 0 <= a < b < s.len() implies s[a].0 != s[b].0 by {
                        if b < s.len() - 1 {
                            assert(old(self).tracking_buffers@[a].0 != old(
                                self,
                            ).tracking_buffers@[b].0);
                        } else {
                            assert(has_key(old(self).tracking_buffers@, s[a].0) || s[a].0 != buf_id)
                                by {
                                if s[a].0 == buf_id {
                                    assert(old(self).tracking_buffers@[a].0 == buf_id);
                                }
                            }
                        }
                    }
                }
            },
        }
    }

    /// Create a handler for a spawned server, register the protocol
    /// initialization request under identifier 0, and return the send
    /// action for it.
    pub fn register_handler(
        &mut self,
        lang_id: String,
        lang_settings: LangSettings,
        root: FsPath,
        root_uri: String,
    ) -> (r: Action)
        requires
            old(self).wf(),
        ensures
            final(self).wf(),
            final(self).tracking_buffers@ == old(self).tracking_buffers@,
            final(self).lsp_handlers@.len() == old(self).lsp_handlers@.len() + 1,
            forall|j: int|
                0 <= j < old(self).lsp_handlers@.len() ==> final(self).lsp_handlers@[j] == old(
                    self,
                ).lsp_handlers@[j],
            ({
                let h = final(self).lsp_handlers@.last();
                &&& h.lang_id == lang_id
                &&& h.lang_settings == lang_settings
                &&& h.root == root
                &&& h.next_id == 1
                &&& h.pending@ =~= Seq::<(u64, PendingRequest)>::empty().push(
                    (0u64, PendingRequest::Initialize),
                )
                &&& h.pending_map() == Map::<u64, PendingRequest>::empty().insert(
                    0u64,
                    PendingRequest::Initialize,
                )
            }),
            match r {
                Action::SendRequest { handler_index, id, params } => {
                    &&& handler_index as int == old(self).lsp_handlers@.len()
                    &&& id == 0u64
                    &&& params matches RequestParams::Initialize { root: rt, root_uri: u } && rt@
                        == root@ && u == root_uri
                },
                _ => false,
            },
    {
        let root_for_params = root.duplicate();
        let mut h = LangServerHandler::new(lang_id, lang_settings, root);
        let id = h.register_request(PendingRequest::Initialize);
        let idx = self.lsp_handlers.len();
        self.lsp_handlers.push(h);
        proof {
            assert forall|i: int| 0 <= i < self.lsp_handlers@.len() implies (#[trigger] self.lsp_handlers@[i]).wf() by {
                if i < self.lsp_handlers@.len() - 1 {
                    assert(self.lsp_handlers@[i] == old(self).lsp_handlers@[i]);
                }
            }
        }
        Action::SendRequest {
            handler_index: idx,
            id,
            params: RequestParams::Initialize { root: root_for_params, root_uri },
        }
    }
}

/// The text of an absolute path: `'/'` before each component.
pub open spec fn path_chars_of(cs: Seq<Seq<char>>) -> Seq<char>
    decreases cs.len(),
{
    if cs.len() == 0 {
        Seq::empty()
    } else {
        path_chars_of(cs.drop_last()).push('/') + cs.last()
    }
}

/// The rendered path; the bare file-system root renders as `"/"`.
pub open spec fn path_display_of(cs: Seq<Seq<char>>) -> Seq<char> {
    if cs.len() == 0 {
        seq!['/']
    } else {
        path_chars_of(cs)
    }
}

proof fn lemma_path_chars_head(cs: Seq<Seq<char>>)
    requires
        cs.len() > 0,
    ensures
        path_chars_of(cs).len() >= 1,
        path_chars_of(cs)[0] == '/',
    decreases cs.len(),
{
    if cs.len() > 1 {
        lemma_path_chars_head(cs.drop_last());
        assert(path_chars_of(cs)[0] == path_chars_of(cs.drop_last()).push('/')[0]);
    } else {
        assert(path_chars_of(cs.drop_last()) =~= Seq::<char>::empty());
        assert(path_chars_of(cs)[0] == Seq::<char>::empty().push('/')[0]);
    }
}

/// Render an absolute path as text.
pub fn path_to_string(p: &FsPath) -> (s: String)
    ensures
        s@ == path_display_of(p@),
        s@.len() > 0,
        s@[0] == '/',
{
    let n = p.components.len();
    if n == 0 {
        let s = "/".to_owned();
        proof {
            reveal_strlit("/");
            assert(s@ =~= seq!['/']);
        }
        return s;
    }
    let mut s = String::new();
    let mut i: usize = 0;
    while i < n
        invariant
            0 <= i <= n,
            n == p.components@.len(),
            s@ == path_chars_of(p@.take(i as int)),
        decreases n - i,
    {
        s.append("/");
        s.append(p.components[i].as_str());
        proof {
            reveal_strlit("/");
            let t = p@.take((i + 1) as int);
            assert(t.drop_last() =~= p@.take(i as int));
            assert(t.last() == p@[i as int]);
            assert(s@ =~= path_chars_of(p@.take(i as int)).push('/') + p@[i as int]);
        }
        i += 1;
    }
    proof {
        assert(p@.take(n as int) =~= p@);
        lemma_path_chars_head(p@);
    }
    s
}

/// Relies on url::Url::from_file_path, which succeeds exactly on absolute
/// paths — on this family of targets, exactly the paths beginning with
/// `'/'` — and on Url's text rendering.  The rendered URL is only carried
/// to the integration layer, never inspected, so its text is not claimed.
#[verifier::external_body]
fn to_file_url(s: &String) -> (r: Option<String>)
    ensures
        (r is Some) == (s@.len() > 0 && s@[0] == '/'),
{
    match url::Url::from_file_path(s.as_str()) {
        Ok(u) => Some(u.to_string()),
        Err(()) => None,
    }
}

/// The payload of a response, decoded at the edge according to the kind
/// of the request it answers.
#[derive(Debug, PartialEq)]
pub enum GotoDefinitionResult {
    Scalar(Location),
    Array(Vec<Location>),
    Link,
}

/// A decoded response body, by request kind.
#[derive(Debug, PartialEq)]
pub enum ResponsePayload {
    /// The initialization outcome; carries the server's negotiated
    /// capabilities as plain text, to be recorded on the handler with
    /// `LangServerHandler::initialize_response`.
    InitializeResult { capabilities: String },
    Hover(Option<String>),
    GotoDefinition(Option<GotoDefinitionResult>),
    InlayHints(Vec<InlayHint>),
    Formatting(Option<Vec<TextEdit>>),
}

/// The payload was decoded for the right request kind.
pub open spec fn payload_matches(pending: PendingRequest, payload: ResponsePayload) -> bool {
    match (pending, payload) {
        (PendingRequest::Initialize, ResponsePayload::InitializeResult { .. }) => true,
        (PendingRequest::Hover(_), ResponsePayload::Hover(_)) => true,
        (PendingRequest::GotoDefinition(_), ResponsePayload::GotoDefinition(_)) => true,
        (PendingRequest::InlayHints(_), ResponsePayload::InlayHints(_)) => true,
        (PendingRequest::FormatDoc(_, _), ResponsePayload::Formatting(_)) => true,
        _ => false,
    }
}

/// Decide the editor-visible effect of a resolved response.  A hover with
/// no content, a definition list of length other than one, a link-shaped
/// definition and an absent format result are deliberate no-ops.
pub fn apply_response(pending: PendingRequest, payload: ResponsePayload) -> (r: Option<
    EditorEffect,
>)
    requires
        payload_matches(pending, payload),
    ensures
        match (pending, payload) {
            (PendingRequest::Initialize, _) => r matches Some(e) && e matches EditorEffect::Message {
                text: t,
            } && t@ == "LangServer initialized"@,
            (PendingRequest::Hover(doc), ResponsePayload::Hover(c)) => match c {
                Some(contents) => r == Some(
                    EditorEffect::ShowHover { text_document: doc, contents },
                ),
                None => r is None,
            },
            (PendingRequest::GotoDefinition(doc), ResponsePayload::GotoDefinition(g)) => match g {
                Some(GotoDefinitionResult::Scalar(location)) => r == Some(
                    EditorEffect::Goto { location },
                ),
                Some(GotoDefinitionResult::Array(ls)) => if ls@.len() == 1 {
                    r == Some(EditorEffect::Goto { location: ls@[0] })
                } else {
                    r is None
                },
                Some(GotoDefinitionResult::Link) => r is None,
                None => r is None,
            },
            (PendingRequest::InlayHints(doc), ResponsePayload::InlayHints(hints)) => r == Some(
                EditorEffect::InlineHints { text_document: doc, hints },
            ),
            (PendingRequest::FormatDoc(lines, _), ResponsePayload::Formatting(e)) => match e {
                Some(edits) => r == Some(EditorEffect::ApplyEdits { lines, edits }),
                None => r is None,
            },
            _ => true,
        },
{
    match (pending, payload) {
        (PendingRequest::Initialize, _) => {
            let text = String::from_str("LangServer initialized");
            Some(EditorEffect::Message { text })
        },
        (PendingRequest::Hover(doc), ResponsePayload::Hover(c)) => match c {
            Some(contents) => Some(EditorEffect::ShowHover { text_document: doc, contents }),
            None => None,
        },
        (PendingRequest::GotoDefinition(_doc), ResponsePayload::GotoDefinition(g)) => match g {
            Some(GotoDefinitionResult::Scalar(location)) => Some(EditorEffect::Goto { location }),
            Some(GotoDefinitionResult::Array(ls)) => {
                if ls.len() == 1 {
                    let mut ls = ls;
                    let location = ls.remove(0);
                    Some(EditorEffect::Goto { location })
                } else {
                    None
                }
            },
            Some(GotoDefinitionResult::Link) => None,
            None => None,
        },
        (PendingRequest::InlayHints(doc), ResponsePayload::InlayHints(hints)) => Some(
            EditorEffect::InlineHints { text_document: doc, hints },
        ),
        (PendingRequest::FormatDoc(lines, _doc), ResponsePayload::Formatting(e)) => match e {
            Some(edits) => Some(EditorEffect::ApplyEdits { lines, edits }),
            None => None,
        },
        _ => None,
    }
}

/// What an inbound server message led to.
#[derive(Debug, PartialEq)]
pub enum LspMsgOutcome {
    /// A server-to-client request: accepted structurally, dropped.
    Ignored,
    /// A recognized "show message" notification; the raw parameter text is
    /// handed on for decoding and display.
    ShowMessage { params: String },
    /// No known notification kind matched: the untyped value comes back
    /// whole for the fallback path (logging at warning level), rather
    /// than being discarded.
    UnknownNotification { notification: RawNotification },
    /// A response whose identifier has no pending entry: handed back to
    /// be reported as a late or unsolicited response.
    UnsolicitedResponse { response: RawResponse },
    /// A response matched its pending request; the continuation and the
    /// response travel on together.
    Completed { handler_index: usize, pending: PendingRequest, response: RawResponse },
}

impl Lspc {
    /// Handle one editor event.
    ///
    /// `StartServer` resolves the workspace root against the probed file
    /// system and asks for a spawn; the handler itself is registered by
    /// `register_handler` once the spawn succeeded.  The four request
    /// events register a continuation under a fresh identifier with the
    /// first handler running the language, or fail with `NotStarted`.
    /// `DidOpen` routes by path ownership and creates the tracking record,
    /// not yet opened — though a repeated open of a tracked buffer keeps
    /// an already-set opened flag, which never reverts; a path no handler
    /// owns is ignored.  `DidChange` on
    /// a tracked buffer sends the full-text open notification the first
    /// time and an incremental change notification ever after, and the
    /// opened flag never reverts; an untracked buffer is ignored.
    pub fn handle_editor_event(&mut self, event: Event, fs: &Fs) -> (r: Result<Action, LspcError>)
        requires
            old(self).wf(),
            old(self).can_allocate(),
        ensures
            final(self).wf(),
            match event {
                Event::Hello => r == Ok::<Action, LspcError>(Action::SayHello) && *final(self)
                    == *old(self),
                Event::StartServer { lang_id, config, cur_path } => {
                    &&& *final(self) == *old(self)
                    &&& match start_dir(*fs, cur_path@) {
                        None => r == Err::<Action, LspcError>(
                            LspcError::Editor(EditorError::RootPathNotFound),
                        ),
                        Some(start) => {
                            &&& no_root(*fs, start, config.root_markers.deep_view())
                                ==> r == Err::<Action, LspcError>(
                                LspcError::Editor(EditorError::RootPathNotFound),
                            )
                            &&& forall|j: int|
                                root_at(*fs, start, config.root_markers.deep_view(), j)
                                    ==> (match r {
                                    Ok(a) => a matches Action::SpawnServer {
                                        lang_id: l,
                                        command: c,
                                        lang_settings: s,
                                        root: rt,
                                        root_uri: _,
                                    } && l == lang_id && c == config.command && s == (LangSettings {
                                        indentation: config.indentation,
                                        indentation_with_space: config.indentation_with_space,
                                    }) && rt@ == start.take(j),
                                    Err(_) => false,
                                })
                        },
                    }
                },
                Event::Hover { lang_id, text_document, position } => {
                    &&& no_handler_for(old(self).lsp_handlers@, lang_id@)
                        ==> r == Err::<Action, LspcError>(LspcError::NotStarted) && *final(self)
                        == *old(self)
                    &&& forall|i: int|
                        first_handler_for(old(self).lsp_handlers@, lang_id@, i) ==> {
                            &&& (exists|req: PendingRequest|
                                #[trigger] registered_with(*old(self), *final(self), i, req) && (
                                req matches PendingRequest::Hover(d) && d@ == text_document@))
                            &&& r == Ok::<Action, LspcError>(
                                Action::SendRequest {
                                    handler_index: i as usize,
                                    id: old(self).lsp_handlers@[i].next_id,
                                    params: RequestParams::Hover { text_document, position },
                                },
                            )
                        }
                },
                Event::GotoDefinition { lang_id, text_document, position } => {
                    &&& no_handler_for(old(self).lsp_handlers@, lang_id@)
                        ==> r == Err::<Action, LspcError>(LspcError::NotStarted) && *final(self)
                        == *old(self)
                    &&& forall|i: int|
                        first_handler_for(old(self).lsp_handlers@, lang_id@, i) ==> {
                            &&& (exists|req: PendingRequest|
                                #[trigger] registered_with(*old(self), *final(self), i, req) && (
                                req matches PendingRequest::GotoDefinition(d) && d@
                                    == text_document@))
                            &&& r == Ok::<Action, LspcError>(
                                Action::SendRequest {
                                    handler_index: i as usize,
                                    id: old(self).lsp_handlers@[i].next_id,
                                    params: RequestParams::GotoDefinition {
                                        text_document,
                                        position,
                                    },
                                },
                            )
                        }
                },
                Event::InlayHints { lang_id, text_document } => {
                    &&& no_handler_for(old(self).lsp_handlers@, lang_id@)
                        ==> r == Err::<Action, LspcError>(LspcError::NotStarted) && *final(self)
                        == *old(self)
                    &&& forall|i: int|
                        first_handler_for(old(self).lsp_handlers@, lang_id@, i) ==> {
                            &&& (exists|req: PendingRequest|
                                #[trigger] registered_with(*old(self), *final(self), i, req) && (
                                req matches PendingRequest::InlayHints(d) && d@ == text_document@))
                            &&& r == Ok::<Action, LspcError>(
                                Action::SendRequest {
                                    handler_index: i as usize,
                                    id: old(self).lsp_handlers@[i].next_id,
                                    params: RequestParams::InlayHints { text_document },
                                },
                            )
                        }
                },
                Event::FormatDoc { lang_id, text_document_lines, text_document } => {
                    &&& no_handler_for(old(self).lsp_handlers@, lang_id@)
                        ==> r == Err::<Action, LspcError>(LspcError::NotStarted) && *final(self)
                        == *old(self)
                    &&& forall|i: int|
                        first_handler_for(old(self).lsp_handlers@, lang_id@, i) ==> {
                            &&& (exists|req: PendingRequest|
                                #[trigger] registered_with(*old(self), *final(self), i, req) && (
                                req matches PendingRequest::FormatDoc(lines, d) && lines
                                    == text_document_lines && d@ == text_document@))
                            &&& r == Ok::<Action, LspcError>(
                                Action::SendRequest {
                                    handler_index: i as usize,
                                    id: old(self).lsp_handlers@[i].next_id,
                                    params: RequestParams::Formatting {
                                        text_document,
                                        tab_size: old(
                                            self,
                                        ).lsp_handlers@[i].lang_settings.indentation,
                                        insert_spaces: old(
                                            self,
                                        ).lsp_handlers@[i].lang_settings.indentation_with_space,
                                    },
                                },
                            )
                        }
                },
                Event::DidOpen { buf_id, text_document } => {
                    &&& no_owner_for(old(self).lsp_handlers@, text_document@)
                        ==> r == Err::<Action, LspcError>(
                        LspcError::MainLoop(MainLoopError::IgnoredMessage),
                    ) && *final(self) == *old(self)
                    &&& forall|i: int|
                        first_owner_for(old(self).lsp_handlers@, text_document@, i) ==> {
                            &&& final(self).lsp_handlers@ == old(self).lsp_handlers@
                            &&& final(self).buffers() == old(self).buffers().insert(
                                buf_id,
                                (TrackingBuffer {
                                    lang_id: old(self).lsp_handlers@[i].lang_id,
                                    text_document,
                                    sent_did_open: old(self).buffers().contains_key(buf_id)
                                        && old(self).buffers()[buf_id].sent_did_open,
                                }),
                            )
                            &&& (match r {
                                Ok(a) => a matches Action::WatchFile { text_document: d } && d@
                                    == text_document@,
                                Err(_) => false,
                            })
                        }
                },
                Event::DidChange { buf_id, version, content_change } => {
                    let bufs = old(self).buffers();
                    &&& !bufs.contains_key(buf_id)
                        ==> r == Err::<Action, LspcError>(
                        LspcError::MainLoop(MainLoopError::IgnoredMessage),
                    ) && *final(self) == *old(self)
                    &&& (bufs.contains_key(buf_id) && no_handler_for(
                        old(self).lsp_handlers@,
                        bufs[buf_id].lang_id@,
                    )) ==> r == Err::<Action, LspcError>(
                        LspcError::MainLoop(MainLoopError::IgnoredMessage),
                    ) && *final(self) == *old(self)
                    &&& forall|i: int|
                        (bufs.contains_key(buf_id) && first_handler_for(
                            old(self).lsp_handlers@,
                            bufs[buf_id].lang_id@,
                            i,
                        )) ==> {
                            let buf = bufs[buf_id];
                            &&& final(self).lsp_handlers@ == old(self).lsp_handlers@
                            &&& if !buf.sent_did_open {
                                &&& final(self).buffers() == bufs.insert(
                                    buf_id,
                                    (TrackingBuffer {
                                        lang_id: buf.lang_id,
                                        text_document: buf.text_document,
                                        sent_did_open: true,
                                    }),
                                )
                                &&& (match r {
                                    Ok(a) => a matches Action::SendNotification {
                                        handler_index: hi,
                                        params: p,
                                    } && hi == i as usize && (
                                    p matches NotificationParams::DidOpenTextDocument {
                                        text_document: d,
                                        language_id: l,
                                        version: v,
                                        text: t,
                                    } && d@ == buf.text_document@ && l == buf.lang_id && v
                                        == version && t == content_change.text),
                                    Err(_) => false,
                                })
                            } else {
                                &&& *final(self) == *old(self)
                                &&& (match r {
                                    Ok(a) => a matches Action::SendNotification {
                                        handler_index: hi,
                                        params: p,
                                    } && hi == i as usize && (
                                    p matches NotificationParams::DidChangeTextDocument {
                                        text_document: d,
                                        version: v,
                                        content_change: c,
                                    } && d@ == buf.text_document@ && v == version && c
                                        == content_change),
                                    Err(_) => false,
                                })
                            }
                        }
                },
            },
    {
        match event {
            Event::Hello => Ok(Action::SayHello),
            Event::StartServer { lang_id, config, cur_path } => {
                let lang_settings = LangSettings {
                    indentation: config.indentation,
                    indentation_with_space: config.indentation_with_space,
                };
                let ropt = find_root_path(&cur_path, &config.root_markers, fs);
                match ropt {
                    None => Err(LspcError::Editor(EditorError::RootPathNotFound)),
                    Some(root) => {
                        let root_str = path_to_string(&root);
                        let uopt = to_file_url(&root_str);
                        match uopt {
                            None => Err(LspcError::Editor(EditorError::RootPathNotFound)),
                            Some(root_uri) => Ok(
                                Action::SpawnServer {
                                    lang_id,
                                    command: config.command,
                                    lang_settings,
                                    root,
                                    root_uri,
                                },
                            ),
                        }
                    },
                }
            },
            Event::Hover { lang_id, text_document, position } => {
                let iopt = find_handler_for(&self.lsp_handlers, &lang_id);
                match iopt {
                    None => Err(LspcError::NotStarted),
                    Some(idx) => {
                        let doc2 = text_document.duplicate();
                        let id = self.send_request_to(idx, PendingRequest::Hover(doc2));
                        proof {
                            assert forall|i: int|
                                first_handler_for(
                                    old(self).lsp_handlers@,
                                    lang_id@,
                                    i,
                                ) implies i == idx as int by {
                                lemma_first_handler_unique(
                                    old(self).lsp_handlers@,
                                    lang_id@,
                                    i,
                                    idx as int,
                                );
                            }
                            let req = PendingRequest::Hover(doc2);
                            assert(registered_with(*old(self), *self, idx as int, req));
                        }
                        Ok(
                            Action::SendRequest {
                                handler_index: idx,
                                id,
                                params: RequestParams::Hover { text_document, position },
                            },
                        )
                    },
                }
            },
            Event::GotoDefinition { lang_id, text_document, position } => {
                let iopt = find_handler_for(&self.lsp_handlers, &lang_id);
                match iopt {
                    None => Err(LspcError::NotStarted),
                    Some(idx) => {
                        let doc2 = text_document.duplicate();
                        let id = self.send_request_to(idx, PendingRequest::GotoDefinition(doc2));
                        proof {
                            assert forall|i: int|
                                first_handler_for(
                                    old(self).lsp_handlers@,
                                    lang_id@,
                                    i,
                                ) implies i == idx as int by {
                                lemma_first_handler_unique(
                                    old(self).lsp_handlers@,
                                    lang_id@,
                                    i,
                                    idx as int,
                                );
                            }
                            let req = PendingRequest::GotoDefinition(doc2);
                            assert(registered_with(*old(self), *self, idx as int, req));
                        }
                        Ok(
                            Action::SendRequest {
                                handler_index: idx,
                                id,
                                params: RequestParams::GotoDefinition { text_document, position },
                            },
                        )
                    },
                }
            },
            Event::InlayHints { lang_id, text_document } => {
                let iopt = find_handler_for(&self.lsp_handlers, &lang_id);
                match iopt {
                    None => Err(LspcError::NotStarted),
                    Some(idx) => {
                        let doc2 = text_document.duplicate();
                        let id = self.send_request_to(idx, PendingRequest::InlayHints(doc2));
                        proof {
                            assert forall|i: int|
                                first_handler_for(
                                    old(self).lsp_handlers@,
                                    lang_id@,
                                    i,
                                ) implies i == idx as int by {
                                lemma_first_handler_unique(
                                    old(self).lsp_handlers@,
                                    lang_id@,
                                    i,
                                    idx as int,
                                );
                            }
                            let req = PendingRequest::InlayHints(doc2);
                            assert(registered_with(*old(self), *self, idx as int, req));
                        }
                        Ok(
                            Action::SendRequest {
                                handler_index: idx,
                                id,
                                params: RequestParams::InlayHints { text_document },
                            },
                        )
                    },
                }
            },
            Event::FormatDoc { lang_id, text_document_lines, text_document } => {
                let iopt = find_handler_for(&self.lsp_handlers, &lang_id);
                match iopt {
                    None => Err(LspcError::NotStarted),
                    Some(idx) => {
                        let tab_size = self.lsp_handlers[idx].lang_settings.indentation;
                        let insert_spaces =
                            self.lsp_handlers[idx].lang_settings.indentation_with_space;
                        let doc2 = text_document.duplicate();
                        let id = self.send_request_to(
                            idx,
                            PendingRequest::FormatDoc(text_document_lines, doc2),
                        );
                        proof {
                            assert forall|i: int|
                                first_handler_for(
                                    old(self).lsp_handlers@,
                                    lang_id@,
                                    i,
                                ) implies i == idx as int by {
                                lemma_first_handler_unique(
                                    old(self).lsp_handlers@,
                                    lang_id@,
                                    i,
                                    idx as int,
                                );
                            }
                        }
                        Ok(
                            Action::SendRequest {
                                handler_index: idx,
                                id,
                                params: RequestParams::Formatting {
                                    text_document,
                                    tab_size,
                                    insert_spaces,
                                },
                            },
                        )
                    },
                }
            },
            Event::DidOpen { buf_id, text_document } => {
                let iopt = find_owner_of(&self.lsp_handlers, &text_document.path);
                match iopt {
                    None => Err(LspcError::MainLoop(MainLoopError::IgnoredMessage)),
                    Some(idx) => {
                        let lang = self.lsp_handlers[idx].lang_id.clone();
                        let doc2 = text_document.duplicate();
                        // a re-opened buffer keeps its opened flag: the open
                        // notification is never sent a second time
                        let already_open = match find_buffer(&self.tracking_buffers, buf_id) {
                            Some(b) => {
                                proof {
                                    assert(has_key(self.tracking_buffers@, buf_id)) by {
                                        assert(self.tracking_buffers@[b as int].0 == buf_id);
                                    }
                                    lemma_pairs_map_domain(self.tracking_buffers@, buf_id);
                                    lemma_pairs_map_index(self.tracking_buffers@, b as int);
                                }
                                self.tracking_buffers[b].1.sent_did_open
                            },
                            None => {
                                proof {
                                    lemma_pairs_map_domain(self.tracking_buffers@, buf_id);
                                }
                                false
                            },
                        };
                        let mut tb = TrackingBuffer::new(lang, text_document);
                        tb.sent_did_open = already_open;
                        self.insert_buffer(buf_id, tb);
                        proof {
                            assert forall|i: int|
                                first_owner_for(
                                    old(self).lsp_handlers@,
                                    text_document@,
                                    i,
                                ) implies i == idx as int by {
                                lemma_first_owner_unique(
                                    old(self).lsp_handlers@,
                                    text_document@,
                                    i,
                                    idx as int,
                                );
                            }
                        }
                        Ok(Action::WatchFile { text_document: doc2 })
                    },
                }
            },
            Event::DidChange { buf_id, version, content_change } => {
                let bopt = find_buffer(&self.tracking_buffers, buf_id);
                match bopt {
                    None => {
                        proof {
                            lemma_pairs_map_domain(self.tracking_buffers@, buf_id);
                        }
                        Err(LspcError::MainLoop(MainLoopError::IgnoredMessage))
                    },
                    Some(bidx) => {
                        proof {
                            assert(has_key(self.tracking_buffers@, buf_id)) by {
                                assert(self.tracking_buffers@[bidx as int].0 == buf_id);
                            }
                            lemma_pairs_map_domain(self.tracking_buffers@, buf_id);
                            lemma_pairs_map_index(self.tracking_buffers@, bidx as int);
                        }
                        let lang = self.tracking_buffers[bidx].1.lang_id.clone();
                        let doc2 = self.tracking_buffers[bidx].1.text_document.duplicate();
                        let sent = self.tracking_buffers[bidx].1.sent_did_open;
                        let hopt = find_handler_for(&self.lsp_handlers, &lang);
                        match hopt {
                            None => Err(LspcError::MainLoop(MainLoopError::IgnoredMessage)),
                            Some(hidx) => {
                                proof {
                                    assert forall|i: int|
                                        first_handler_for(
                                            old(self).lsp_handlers@,
                                            lang@,
                                            i,
                                        ) implies i == hidx as int by {
                                        lemma_first_handler_unique(
                                            old(self).lsp_handlers@,
                                            lang@,
                                            i,
                                            hidx as int,
                                        );
                                    }
                                }
                                if !sent {
                                    let ghost buf = old(self).buffers()[buf_id];
                                    let ghost tb2 = TrackingBuffer {
                                        lang_id: buf.lang_id,
                                        text_document: buf.text_document,
                                        sent_did_open: true,
                                    };
                                    proof {
                                        lemma_pairs_map_update(
                                            self.tracking_buffers@,
                                            bidx as int,
                                            tb2,
                                        );
                                    }
                                    let slot = &mut self.tracking_buffers[bidx];
                                    slot.1.sent_did_open = true;
                                    proof {
                                        assert(self.tracking_buffers@ =~= old(
                                            self,
                                        ).tracking_buffers@.update(bidx as int, (buf_id, tb2)));
                                        assert forall|a: int, b: int|
                                            0 <= a < b < self.tracking_buffers@.len() implies self.tracking_buffers@[a].0
                                            != self.tracking_buffers@[b].0 by {
                                            assert(old(self).tracking_buffers@[a].0 != old(
                                                self,
                                            ).tracking_buffers@[b].0);
                                        }
                                    }
                                    Ok(
                                        Action::SendNotification {
                                            handler_index: hidx,
                                            params: NotificationParams::DidOpenTextDocument {
                                                text_document: doc2,
                                                language_id: lang,
                                                version,
                                                text: content_change.text,
                                            },
                                        },
                                    )
                                } else {
                                    Ok(
                                        Action::SendNotification {
                                            handler_index: hidx,
                                            params: NotificationParams::DidChangeTextDocument {
                                                text_document: doc2,
                                                version,
                                                content_change,
                                            },
                                        },
                                    )
                                }
                            },
                        }
                    },
                }
            },
        }
    }

    /// Handle one inbound protocol message from handler `index`.
    ///
    /// A server-to-client request is accepted structurally and dropped.  A
    /// notification with the known "show message" method is handed on; any
    /// other notification comes back whole for the fallback path, touching
    /// no pending state.  A response resolves its own continuation exactly
    /// once; a response whose identifier has no pending entry comes back
    /// to be reported, touching no pending entry at all.
    pub fn handle_lsp_msg(&mut self, index: usize, msg: LspMessage) -> (r: Result<
        LspMsgOutcome,
        LspcError,
    >)
        requires
            old(self).wf(),
            index < old(self).lsp_handlers@.len(),
        ensures
            final(self).wf(),
            final(self).tracking_buffers@ == old(self).tracking_buffers@,
            match msg {
                LspMessage::Request(_) => r == Ok::<LspMsgOutcome, LspcError>(
                    LspMsgOutcome::Ignored,
                ) && *final(self) == *old(self),
                LspMessage::Notification(n) => {
                    &&& *final(self) == *old(self)
                    &&& if n.method@ == "window/showMessage"@ {
                        r == Ok::<LspMsgOutcome, LspcError>(
                            LspMsgOutcome::ShowMessage { params: n.params },
                        )
                    } else {
                        r == Ok::<LspMsgOutcome, LspcError>(
                            LspMsgOutcome::UnknownNotification { notification: n },
                        )
                    }
                },
                LspMessage::Response(res) => {
                    let pre_h = old(self).lsp_handlers@[index as int];
                    let post_h = final(self).lsp_handlers@[index as int];
                    &&& final(self).lsp_handlers@.len() == old(self).lsp_handlers@.len()
                    &&& forall|j: int|
                        0 <= j < old(self).lsp_handlers@.len() && j != index
                            ==> final(self).lsp_handlers@[j] == old(self).lsp_handlers@[j]
                    &&& post_h.lang_id == pre_h.lang_id
                    &&& post_h.lang_settings == pre_h.lang_settings
                    &&& post_h.root == pre_h.root
                    &&& post_h.server_capabilities == pre_h.server_capabilities
                    &&& post_h.next_id == pre_h.next_id
                    &&& if pre_h.pending_map().contains_key(res.id) {
                        &&& r == Ok::<LspMsgOutcome, LspcError>(
                            LspMsgOutcome::Completed {
                                handler_index: index,
                                pending: pre_h.pending_map()[res.id],
                                response: res,
                            },
                        )
                        &&& post_h.pending_map() == pre_h.pending_map().remove(res.id)
                    } else {
                        &&& r == Ok::<LspMsgOutcome, LspcError>(
                            LspMsgOutcome::UnsolicitedResponse { response: res },
                        )
                        &&& final(self).lsp_handlers@ == old(self).lsp_handlers@
                    }
                },
            },
    {
        match msg {
            LspMessage::Request(_req) => Ok(LspMsgOutcome::Ignored),
            LspMessage::Notification(noti) => {
                let known = String::from_str("window/showMessage");
                if noti.method.eq(&known) {
                    Ok(LspMsgOutcome::ShowMessage { params: noti.params })
                } else {
                    Ok(LspMsgOutcome::UnknownNotification { notification: noti })
                }
            },
            LspMessage::Response(res) => {
                let ghost pre = *self;
                let id = res.id;
                let h = &mut self.lsp_handlers[index];
                let copt = h.resolve_continuation(id);
                proof {
                    assert(self.lsp_handlers@ =~= pre.lsp_handlers@.update(
                        index as int,
                        self.lsp_handlers@[index as int],
                    ));
                    assert forall|i: int|
                        0 <= i < self.lsp_handlers@.len() implies (#[trigger] self.lsp_handlers@[i]).wf() by {
                        if i != index as int {
                            assert(self.lsp_handlers@[i] == pre.lsp_handlers@[i]);
                        }
                    }
                    if !pre.lsp_handlers@[index as int].pending_map().contains_key(id) {
                        assert(self.lsp_handlers@ =~= pre.lsp_handlers@);
                    }
                }
                match copt {
                    Some(pending) => Ok(
                        LspMsgOutcome::Completed { handler_index: index, pending, response: res },
                    ),
                    None => Ok(LspMsgOutcome::UnsolicitedResponse { response: res }),
                }
            },
        }
    }
}

} // verus!
