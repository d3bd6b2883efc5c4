use lspc::errors::{EditorError, LspcError, MainLoopError};
use lspc::handler::{LangServerHandler, PendingRequest};
use lspc::lspc::{
    apply_response, Action, EditorEffect, Event, GotoDefinitionResult, Lspc, LspMsgOutcome,
    NotificationParams, RequestParams, ResponsePayload, TrackingBuffer,
};
use lspc::msg::{LspMessage, RawNotification, RawResponse};
use lspc::rootpath::Fs;
use lspc::types::{ContentChange, FsPath, LangSettings, Location, LsConfig, Position, Range, TextDocumentId, TextEdit};

fn p(parts: &[&str]) -> FsPath {
    FsPath { components: parts.iter().map(|s| s.to_string()).collect() }
}

fn doc(parts: &[&str]) -> TextDocumentId {
    TextDocumentId { path: p(parts) }
}

fn empty_fs() -> Fs {
    Fs { entries: Vec::new(), files: Vec::new() }
}

fn settings() -> LangSettings {
    LangSettings { indentation: 4, indentation_with_space: true }
}

fn engine_with_rust_handler() -> Lspc {
    let mut engine = Lspc::new();
    let act = engine.register_handler(
        "rust".to_string(),
        settings(),
        p(&["proj"]),
        "file:///proj".to_string(),
    );
    match act {
        Action::SendRequest { handler_index, id, params } => {
            assert_eq!(handler_index, 0);
            assert_eq!(id, 0);
            assert!(matches!(params, RequestParams::Initialize { .. }));
        },
        other => panic!("expected the initialize request, got {:?}", other),
    }
    engine
}

#[test]
fn correlation_routes_each_response_to_its_own_continuation() {
    let mut h = LangServerHandler::new("rust".to_string(), settings(), p(&["proj"]));
    let id0 = h.register_request(PendingRequest::Hover(doc(&["proj", "a.rs"])));
    let id1 = h.register_request(PendingRequest::GotoDefinition(doc(&["proj", "b.rs"])));
    let id2 = h.register_request(PendingRequest::InlayHints(doc(&["proj", "c.rs"])));
    assert_eq!((id0, id1, id2), (0, 1, 2));
    assert_eq!(h.pending.len(), 3);

    // responses arrive out of order; each finds exactly its own entry
    assert_eq!(
        h.resolve_continuation(id1),
        Some(PendingRequest::GotoDefinition(doc(&["proj", "b.rs"])))
    );
    // re-delivery of the same identifier is unsolicited
    assert_eq!(h.resolve_continuation(id1), None);
    assert_eq!(
        h.resolve_continuation(id2),
        Some(PendingRequest::InlayHints(doc(&["proj", "c.rs"])))
    );
    assert_eq!(
        h.resolve_continuation(id0),
        Some(PendingRequest::Hover(doc(&["proj", "a.rs"])))
    );
    assert!(h.pending.is_empty());
    // identifiers keep increasing afterwards
    let id3 = h.register_request(PendingRequest::Initialize);
    assert_eq!(id3, 3);
}

#[test]
fn did_open_outside_any_root_is_ignored_without_tracking() {
    let mut engine = engine_with_rust_handler();
    let r = engine.handle_editor_event(
        Event::DidOpen { buf_id: 7, text_document: doc(&["elsewhere", "x.rs"]) },
        &empty_fs(),
    );
    assert_eq!(r, Err(LspcError::MainLoop(MainLoopError::IgnoredMessage)));
    assert!(engine.tracking_buffers.is_empty());
}

#[test]
fn did_change_for_untracked_buffer_is_ignored() {
    let mut engine = engine_with_rust_handler();
    let r = engine.handle_editor_event(
        Event::DidChange {
            buf_id: 9,
            version: 1,
            content_change: ContentChange { range: None, text: "fn main() {}".to_string() },
        },
        &empty_fs(),
    );
    assert_eq!(r, Err(LspcError::MainLoop(MainLoopError::IgnoredMessage)));
}

#[test]
fn buffer_lifecycle_open_then_change() {
    let mut engine = engine_with_rust_handler();
    let d = doc(&["proj", "src", "lib.rs"]);

    let r = engine.handle_editor_event(
        Event::DidOpen { buf_id: 1, text_document: d.clone() },
        &empty_fs(),
    );
    assert_eq!(r, Ok(Action::WatchFile { text_document: d.clone() }));
    assert_eq!(engine.tracking_buffers.len(), 1);
    assert_eq!(
        engine.tracking_buffers[0].1,
        TrackingBuffer {
            lang_id: "rust".to_string(),
            text_document: d.clone(),
            sent_did_open: false
        }
    );

    // the first change sends the full-text open notification
    let r = engine.handle_editor_event(
        Event::DidChange {
            buf_id: 1,
            version: 2,
            content_change: ContentChange { range: None, text: "fn main() {}".to_string() },
        },
        &empty_fs(),
    );
    assert_eq!(
        r,
        Ok(Action::SendNotification {
            handler_index: 0,
            params: NotificationParams::DidOpenTextDocument {
                text_document: d.clone(),
                language_id: "rust".to_string(),
                version: 2,
                text: "fn main() {}".to_string(),
            },
        })
    );
    assert!(engine.tracking_buffers[0].1.sent_did_open);

    // every later change is incremental, and the flag never reverts
    let change = ContentChange { range: None, text: "x".to_string() };
    let r = engine.handle_editor_event(
        Event::DidChange { buf_id: 1, version: 3, content_change: change.clone() },
        &empty_fs(),
    );
    assert_eq!(
        r,
        Ok(Action::SendNotification {
            handler_index: 0,
            params: NotificationParams::DidChangeTextDocument {
                text_document: d.clone(),
                version: 3,
                content_change: change,
            },
        })
    );
    assert!(engine.tracking_buffers[0].1.sent_did_open);
}

#[test]
fn known_notification_is_forwarded() {
    let mut engine = engine_with_rust_handler();
    let r = engine.handle_lsp_msg(
        0,
        LspMessage::Notification(RawNotification {
            method: "window/showMessage".to_string(),
            params: "{\"type\":3,\"message\":\"hi\"}".to_string(),
        }),
    );
    assert_eq!(
        r,
        Ok(LspMsgOutcome::ShowMessage { params: "{\"type\":3,\"message\":\"hi\"}".to_string() })
    );
}

#[test]
fn unknown_notification_is_dropped_and_pending_state_kept() {
    let mut engine = engine_with_rust_handler();
    let before = engine.lsp_handlers[0].pending.len();
    let r = engine.handle_lsp_msg(
        0,
        LspMessage::Notification(RawNotification {
            method: "telemetry/event".to_string(),
            params: "{}".to_string(),
        }),
    );
    assert_eq!(
        r,
        Ok(LspMsgOutcome::UnknownNotification {
            notification: RawNotification {
                method: "telemetry/event".to_string(),
                params: "{}".to_string(),
            },
        })
    );
    assert_eq!(engine.lsp_handlers[0].pending.len(), before);
}

#[test]
fn unsolicited_response_is_ignored_and_other_entries_kept() {
    let mut engine = engine_with_rust_handler();
    let before = engine.lsp_handlers[0].pending.len();
    let r = engine.handle_lsp_msg(
        0,
        LspMessage::Response(RawResponse {
            id: 42,
            result: Some("null".to_string()),
            error: None,
        }),
    );
    assert_eq!(
        r,
        Ok(LspMsgOutcome::UnsolicitedResponse {
            response: RawResponse { id: 42, result: Some("null".to_string()), error: None },
        })
    );
    assert_eq!(engine.lsp_handlers[0].pending.len(), before);
    assert_eq!(engine.lsp_handlers[0].pending[0], (0, PendingRequest::Initialize));
}

#[test]
fn server_request_is_accepted_and_dropped() {
    let mut engine = engine_with_rust_handler();
    let r = engine.handle_lsp_msg(
        0,
        LspMessage::Request(lspc::msg::RawRequest {
            id: 5,
            method: "workspace/configuration".to_string(),
            params: "{}".to_string(),
        }),
    );
    assert_eq!(r, Ok(LspMsgOutcome::Ignored));
}

#[test]
fn request_without_handler_fails_not_started() {
    let mut engine = Lspc::new();
    let r = engine.handle_editor_event(
        Event::Hover {
            lang_id: "rust".to_string(),
            text_document: doc(&["proj", "a.rs"]),
            position: Position { line: 0, character: 0 },
        },
        &empty_fs(),
    );
    assert_eq!(r, Err(LspcError::NotStarted));
}

#[test]
fn start_server_without_marker_fails_root_path_not_found() {
    let mut engine = Lspc::new();
    let r = engine.handle_editor_event(
        Event::StartServer {
            lang_id: "rust".to_string(),
            config: LsConfig {
                command: vec!["rust-analyzer".to_string()],
                root_markers: vec!["Cargo.toml".to_string()],
                indentation: 4,
                indentation_with_space: true,
            },
            cur_path: p(&["proj", "src", "main.rs"]),
        },
        &empty_fs(),
    );
    assert_eq!(r, Err(LspcError::Editor(EditorError::RootPathNotFound)));
    assert!(engine.lsp_handlers.is_empty());
}

#[test]
fn end_to_end_start_hover_show() {
    // StartServer resolves /proj from /proj/src/main.rs via /proj/Cargo.toml
    let fs = Fs {
        entries: vec![
            p(&["proj"]),
            p(&["proj", "Cargo.toml"]),
            p(&["proj", "src"]),
            p(&["proj", "src", "main.rs"]),
        ],
        files: vec![p(&["proj", "Cargo.toml"]), p(&["proj", "src", "main.rs"])],
    };
    let mut engine = Lspc::new();
    let r = engine.handle_editor_event(
        Event::StartServer {
            lang_id: "rust".to_string(),
            config: LsConfig {
                command: vec!["rust-analyzer".to_string()],
                root_markers: vec!["Cargo.toml".to_string()],
                indentation: 4,
                indentation_with_space: true,
            },
            cur_path: p(&["proj", "src", "main.rs"]),
        },
        &fs,
    );
    let (lang_id, command, lang_settings, root, root_uri) = match r {
        Ok(Action::SpawnServer { lang_id, command, lang_settings, root, root_uri }) => {
            (lang_id, command, lang_settings, root, root_uri)
        },
        other => panic!("expected a spawn action, got {:?}", other),
    };
    assert_eq!(lang_id, "rust");
    assert_eq!(command, vec!["rust-analyzer".to_string()]);
    assert_eq!(root, p(&["proj"]));
    assert_eq!(root_uri, "file:///proj");

    // the spawn succeeded: the handler registers and initializes
    let act = engine.register_handler(lang_id, lang_settings, root, root_uri);
    assert!(matches!(act, Action::SendRequest { handler_index: 0, id: 0, .. }));
    let r = engine.handle_lsp_msg(
        0,
        LspMessage::Response(RawResponse { id: 0, result: Some("{}".to_string()), error: None }),
    );
    let (pending, response) = match r {
        Ok(LspMsgOutcome::Completed { handler_index: 0, pending, response }) => {
            (pending, response)
        },
        other => panic!("expected the initialize completion, got {:?}", other),
    };
    assert_eq!(pending, PendingRequest::Initialize);
    assert_eq!(response.id, 0);
    // the continuation records the negotiated capabilities, then messages
    engine.lsp_handlers[0].initialize_response("{}".to_string());
    assert_eq!(engine.lsp_handlers[0].server_capabilities, Some("{}".to_string()));
    let eff = apply_response(
        pending,
        ResponsePayload::InitializeResult { capabilities: "{}".to_string() },
    );
    assert_eq!(eff, Some(EditorEffect::Message { text: "LangServer initialized".to_string() }));

    // a hover sends exactly one request ...
    let d = doc(&["proj", "src", "main.rs"]);
    let r = engine.handle_editor_event(
        Event::Hover {
            lang_id: "rust".to_string(),
            text_document: d.clone(),
            position: Position { line: 0, character: 0 },
        },
        &empty_fs(),
    );
    assert_eq!(
        r,
        Ok(Action::SendRequest {
            handler_index: 0,
            id: 1,
            params: RequestParams::Hover {
                text_document: d.clone(),
                position: Position { line: 0, character: 0 },
            },
        })
    );
    assert_eq!(engine.lsp_handlers[0].pending.len(), 1);

    // ... and its response becomes exactly one show-hover effect
    let r = engine.handle_lsp_msg(
        0,
        LspMessage::Response(RawResponse {
            id: 1,
            result: Some("{\"contents\":\"fn main()\"}".to_string()),
            error: None,
        }),
    );
    let pending = match r {
        Ok(LspMsgOutcome::Completed { handler_index: 0, pending, .. }) => pending,
        other => panic!("expected the hover completion, got {:?}", other),
    };
    assert_eq!(pending, PendingRequest::Hover(d.clone()));
    assert!(engine.lsp_handlers[0].pending.is_empty());
    let eff = apply_response(pending, ResponsePayload::Hover(Some("fn main()".to_string())));
    assert_eq!(
        eff,
        Some(EditorEffect::ShowHover { text_document: d, contents: "fn main()".to_string() })
    );
}

#[test]
fn empty_hover_payload_is_a_no_op() {
    let eff = apply_response(
        PendingRequest::Hover(doc(&["proj", "a.rs"])),
        ResponsePayload::Hover(None),
    );
    assert_eq!(eff, None);
}

#[test]
fn goto_definition_single_location_navigates() {
    let loc = Location {
        uri: "file:///proj/src/lib.rs".to_string(),
        range: Range {
            start: Position { line: 3, character: 0 },
            end: Position { line: 3, character: 5 },
        },
    };
    let eff = apply_response(
        PendingRequest::GotoDefinition(doc(&["proj", "a.rs"])),
        ResponsePayload::GotoDefinition(Some(GotoDefinitionResult::Scalar(loc.clone()))),
    );
    assert_eq!(eff, Some(EditorEffect::Goto { location: loc.clone() }));

    let eff = apply_response(
        PendingRequest::GotoDefinition(doc(&["proj", "a.rs"])),
        ResponsePayload::GotoDefinition(Some(GotoDefinitionResult::Array(vec![loc.clone()]))),
    );
    assert_eq!(eff, Some(EditorEffect::Goto { location: loc.clone() }));

    // any other list length is a deliberate no-op
    let eff = apply_response(
        PendingRequest::GotoDefinition(doc(&["proj", "a.rs"])),
        ResponsePayload::GotoDefinition(Some(GotoDefinitionResult::Array(vec![
            loc.clone(),
            loc.clone(),
        ]))),
    );
    assert_eq!(eff, None);
    let eff = apply_response(
        PendingRequest::GotoDefinition(doc(&["proj", "a.rs"])),
        ResponsePayload::GotoDefinition(None),
    );
    assert_eq!(eff, None);
}

#[test]
fn format_doc_applies_edits_against_supplied_lines() {
    let lines = vec!["fn main(){}".to_string()];
    let edit = TextEdit {
        range: Range {
            start: Position { line: 0, character: 0 },
            end: Position { line: 0, character: 11 },
        },
        new_text: "fn main() {}".to_string(),
    };
    let eff = apply_response(
        PendingRequest::FormatDoc(lines.clone(), doc(&["proj", "a.rs"])),
        ResponsePayload::Formatting(Some(vec![edit.clone()])),
    );
    assert_eq!(eff, Some(EditorEffect::ApplyEdits { lines, edits: vec![edit] }));

    let eff = apply_response(
        PendingRequest::FormatDoc(vec![], doc(&["proj", "a.rs"])),
        ResponsePayload::Formatting(None),
    );
    assert_eq!(eff, None);
}

#[test]
fn format_request_carries_handler_settings() {
    let mut engine = engine_with_rust_handler();
    let d = doc(&["proj", "src", "main.rs"]);
    let r = engine.handle_editor_event(
        Event::FormatDoc {
            lang_id: "rust".to_string(),
            text_document_lines: vec!["fn main(){}".to_string()],
            text_document: d.clone(),
        },
        &empty_fs(),
    );
    assert_eq!(
        r,
        Ok(Action::SendRequest {
            handler_index: 0,
            id: 1,
            params: RequestParams::Formatting {
                text_document: d,
                tab_size: 4,
                insert_spaces: true,
            },
        })
    );
}

#[test]
fn hello_event_says_hello() {
    let mut engine = Lspc::new();
    let r = engine.handle_editor_event(Event::Hello, &empty_fs());
    assert_eq!(r, Ok(Action::SayHello));
    let r = engine.handle_timer_tick();
    assert_eq!(r, Ok(()));
}

#[test]
fn repeated_did_open_does_not_revert_opened_flag() {
    let mut engine = engine_with_rust_handler();
    let d = doc(&["proj", "src", "lib.rs"]);
    engine
        .handle_editor_event(Event::DidOpen { buf_id: 1, text_document: d.clone() }, &empty_fs())
        .unwrap();
    engine
        .handle_editor_event(
            Event::DidChange {
                buf_id: 1,
                version: 2,
                content_change: ContentChange { range: None, text: "fn main() {}".to_string() },
            },
            &empty_fs(),
        )
        .unwrap();
    assert!(engine.tracking_buffers[0].1.sent_did_open);

    // a re-delivered open keeps the flag ...
    let r = engine.handle_editor_event(
        Event::DidOpen { buf_id: 1, text_document: d.clone() },
        &empty_fs(),
    );
    assert_eq!(r, Ok(Action::WatchFile { text_document: d.clone() }));
    assert_eq!(engine.tracking_buffers.len(), 1);
    assert!(engine.tracking_buffers[0].1.sent_did_open);

    // ... so the next change is still incremental, not a second full open
    let change = ContentChange { range: None, text: "x".to_string() };
    let r = engine.handle_editor_event(
        Event::DidChange { buf_id: 1, version: 3, content_change: change.clone() },
        &empty_fs(),
    );
    assert_eq!(
        r,
        Ok(Action::SendNotification {
            handler_index: 0,
            params: NotificationParams::DidChangeTextDocument {
                text_document: d,
                version: 3,
                content_change: change,
            },
        })
    );
}

#[test]
fn initialize_response_records_capabilities() {
    let mut h = LangServerHandler::new("rust".to_string(), settings(), p(&["proj"]));
    assert_eq!(h.server_capabilities, None);
    let id = h.register_request(PendingRequest::Hover(doc(&["proj", "a.rs"])));
    h.initialize_response("{\"hoverProvider\":true}".to_string());
    assert_eq!(h.server_capabilities, Some("{\"hoverProvider\":true}".to_string()));
    // recording capabilities touches nothing else
    assert_eq!(h.pending.len(), 1);
    assert_eq!(h.resolve_continuation(id), Some(PendingRequest::Hover(doc(&["proj", "a.rs"]))));
}
