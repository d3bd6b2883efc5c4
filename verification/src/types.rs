//! Plain data carried through the engine.
//!
//! Documents, positions, edits and hints are held as plain values so that
//! every rule about them can be stated and checked; the integration layer
//! converts them to and from the protocol's own schema types at the edge.

use vstd::prelude::*;

verus! {

/// An absolute file-system path, split into its components.
/// The empty component list is the file-system root.
#[derive(Debug, Clone, PartialEq, Eq)]
pub struct FsPath {
    pub components: Vec<String>,
}

impl View for FsPath {
    type V = Seq<Seq<char>>;

    open spec fn view(&self) -> Seq<Seq<char>> {
        self.components.deep_view()
    }
}

impl DeepView for FsPath {
    type V = Seq<Seq<char>>;

    open spec fn deep_view(&self) -> Seq<Seq<char>> {
        self.view()
    }
}

/// `root` is `p` itself or an ancestor of it, component by component.
pub open spec fn is_path_prefix(root: Seq<Seq<char>>, p: Seq<Seq<char>>) -> bool {
    root.len() <= p.len() && forall|i: int| 0 <= i < root.len() ==> p[i] == root[i]
}

/// Identity of a text document managed by the editor: its file path.
#[derive(Debug, Clone, PartialEq, Eq)]
pub struct TextDocumentId {
    pub path: FsPath,
}

impl View for TextDocumentId {
    type V = Seq<Seq<char>>;

    open spec fn view(&self) -> Seq<Seq<char>> {
        self.path@
    }
}

/// An element-for-element copy; `String::clone` keeps the characters.
pub fn clone_string_vec(v: &Vec<String>) -> (r: Vec<String>)
    ensures
        r@ == v@,
{
    let mut r: Vec<String> = Vec::new();
    let mut i: usize = 0;
    while i < v.len()
        invariant
            0 <= i <= v@.len(),
            r@ =~= v@.take(i as int),
        decreases v@.len() - i,
    {
        r.push(v[i].clone());
        i += 1;
    }
    proof {
        assert(r@ =~= v@);
    }
    r
}

impl FsPath {
    /// A copy with the same components.
    pub fn duplicate(&self) -> (r: FsPath)
        ensures
            r.components@ == self.components@,
            r@ == self@,
    {
        FsPath { components: clone_string_vec(&self.components) }
    }
}

impl TextDocumentId {
    /// A copy naming the same document.
    pub fn duplicate(&self) -> (r: TextDocumentId)
        ensures
            r.path.components@ == self.path.components@,
            r@ == self@,
    {
        TextDocumentId { path: self.path.duplicate() }
    }
}

/// A zero-based line/character position in a document.
#[derive(Debug, Clone, Copy, PartialEq, Eq, Structural)]
pub struct Position {
    pub line: u64,
    pub character: u64,
}

/// A half-open region of a document.
#[derive(Debug, Clone, Copy, PartialEq, Eq, Structural)]
pub struct Range {
    pub start: Position,
    pub end: Position,
}

/// A resolved source location, as reported by a server.
#[derive(Debug, Clone, PartialEq, Eq)]
pub struct Location {
    pub uri: String,
    pub range: Range,
}

/// One change to a document: the new text, and the replaced region
/// (`None` means the whole document was replaced).
#[derive(Debug, Clone, PartialEq, Eq)]
pub struct ContentChange {
    pub range: Option<Range>,
    pub text: String,
}

/// An inlay hint reported by a server, forwarded verbatim.
#[derive(Debug, Clone, PartialEq, Eq)]
pub struct InlayHint {
    pub range: Range,
    pub kind: String,
    pub label: String,
}

/// A text edit reported by a server: replace `range` with `new_text`.
#[derive(Debug, Clone, PartialEq, Eq)]
pub struct TextEdit {
    pub range: Range,
    pub new_text: String,
}

/// Configuration of one language server, as the editor supplies it.
#[derive(Debug, PartialEq)]
pub struct LsConfig {
    pub command: Vec<String>,
    pub root_markers: Vec<String>,
    pub indentation: u64,
    pub indentation_with_space: bool,
}

/// Per-server settings kept by a handler.
#[derive(Debug, Clone, Copy, PartialEq, Eq, Structural)]
pub struct LangSettings {
    pub indentation: u64,
    pub indentation_with_space: bool,
}

} // verus!
