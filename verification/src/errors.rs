//! The error taxonomy of the engine.
//!
//! Editor-side failures, language-server failures and deliberate no-ops are
//! kept apart; `LspcError` unifies them for the dispatch loop, which logs and
//! continues — no error here is fatal to the loop.

use vstd::prelude::*;

verus! {

/// A failure of an editor-visible operation.
#[derive(Debug, PartialEq, Eq)]
pub enum EditorError {
    Timeout,
    Parse(&'static str),
    CommandDataInvalid(&'static str),
    UnexpectedResponse(&'static str),
    UnexpectedMessage(String),
    Failed(String),
    RootPathNotFound,
}

/// A failure of a language-server subprocess or of its wire encoding.
#[derive(Debug, PartialEq, Eq)]
pub enum LangServerError {
    /// The server process could not be spawned; carries the reported reason.
    Process(String),
    ServerDisconnected,
    InvalidRequest(String),
    InvalidNotification(String),
    InvalidResponse(String),
}

/// An expected no-op: the event concerned nothing the engine tracks.
#[derive(Debug, PartialEq, Eq)]
pub enum MainLoopError {
    IgnoredMessage,
}

/// The unified error of the engine.
#[derive(Debug, PartialEq, Eq)]
pub enum LspcError {
    Editor(EditorError),
    LangServer(LangServerError),
    MainLoop(MainLoopError),
    /// A request targeted a language id with no running handler.
    NotStarted,
}

impl From<EditorError> for LspcError {
    fn from(e: EditorError) -> (r: Self)
        ensures
            r == LspcError::Editor(e),
    {
        LspcError::Editor(e)
    }
}

impl vstd::std_specs::convert::FromSpecImpl<EditorError> for LspcError {
    open spec fn obeys_from_spec() -> bool {
        true
    }

    open spec fn from_spec(e: EditorError) -> LspcError {
        LspcError::Editor(e)
    }
}

impl From<LangServerError> for LspcError {
    fn from(e: LangServerError) -> (r: Self)
        ensures
            r == LspcError::LangServer(e),
    {
        LspcError::LangServer(e)
    }
}

impl vstd::std_specs::convert::FromSpecImpl<LangServerError> for LspcError {
    open spec fn obeys_from_spec() -> bool {
        true
    }

    open spec fn from_spec(e: LangServerError) -> LspcError {
        LspcError::LangServer(e)
    }
}

impl From<MainLoopError> for LspcError {
    fn from(e: MainLoopError) -> (r: Self)
        ensures
            r == LspcError::MainLoop(e),
    {
        LspcError::MainLoop(e)
    }
}

impl vstd::std_specs::convert::FromSpecImpl<MainLoopError> for LspcError {
    open spec fn obeys_from_spec() -> bool {
        true
    }

    open spec fn from_spec(e: MainLoopError) -> LspcError {
        LspcError::MainLoop(e)
    }
}

} // verus!
