//! Per-server state: the language-server handler.
//!
//! A handler owns one server's workspace root, its settings, and the
//! pending-request table.  Request identifiers are allocated monotonically
//! and are unique for the handler's lifetime; every identifier entered into
//! the table is removed at most once, when its response arrives.

use vstd::prelude::*;

use crate::table::{
    has_key, keys_distinct, lemma_keys_distinct_remove, lemma_pairs_map_domain,
    lemma_pairs_map_index, lemma_pairs_map_push, lemma_pairs_map_remove, pairs_map,
};
use crate::types::{is_path_prefix, FsPath, LangSettings, TextDocumentId};

verus! {

/// The continuation bound to an outstanding request: what its response
/// means and what is needed to apply it.
#[derive(Debug, PartialEq)]
pub enum PendingRequest {
    Initialize,
    Hover(TextDocumentId),
    GotoDefinition(TextDocumentId),
    InlayHints(TextDocumentId),
    FormatDoc(Vec<String>, TextDocumentId),
}

/// State of one running language server.
#[derive(Debug)]
pub struct LangServerHandler {
    pub lang_id: String,
    pub lang_settings: LangSettings,
    pub root: FsPath,
    /// The server's negotiated capabilities, recorded from the
    /// initialization response; `None` until that response arrived.
    pub server_capabilities: Option<String>,
    pub next_id: u64,
    pub pending: Vec<(u64, PendingRequest)>,
}

impl LangServerHandler {
    /// Pending identifiers are pairwise distinct and below the next one.
    pub open spec fn wf(self) -> bool {
        &&& keys_distinct(self.pending@)
        &&& forall|i: int| 0 <= i < self.pending@.len() ==> self.pending@[i].0 < self.next_id
    }

    /// The pending table as the map the contracts speak of.
    pub open spec fn pending_map(self) -> Map<u64, PendingRequest> {
        pairs_map(self.pending@)
    }

    pub fn new(lang_id: String, lang_settings: LangSettings, root: FsPath) -> (h: Self)
        ensures
            h.wf(),
            h.lang_id == lang_id,
            h.lang_settings == lang_settings,
            h.root == root,
            h.server_capabilities is None,
            h.next_id == 0,
            h.pending@ == Seq::<(u64, PendingRequest)>::empty(),
            h.pending_map() == Map::<u64, PendingRequest>::empty(),
    {
        let h = LangServerHandler {
            lang_id,
            lang_settings,
            root,
            server_capabilities: None,
            next_id: 0,
            pending: Vec::new(),
        };
        proof {
            assert(h.pending@ =~= Seq::<(u64, PendingRequest)>::empty());
        }
        h
    }

    /// Record the server's negotiated capabilities, handed over as the
    /// plain text of the initialization response; nothing else changes.
    pub fn initialize_response(&mut self, capabilities: String)
        ensures
            final(self).server_capabilities == Some(capabilities),
            final(self).lang_id == old(self).lang_id,
            final(self).lang_settings == old(self).lang_settings,
            final(self).root == old(self).root,
            final(self).next_id == old(self).next_id,
            final(self).pending == old(self).pending,
            old(self).wf() ==> final(self).wf(),
    {
        self.server_capabilities = Some(capabilities);
    }

    /// Allocate the next request identifier and store the continuation
    /// under it.  The identifier is fresh: it was never in the table.
    pub fn register_request(&mut self, req: PendingRequest) -> (id: u64)
        requires
            old(self).wf(),
            old(self).next_id < u64::MAX,
        ensures
            final(self).wf(),
            id == old(self).next_id,
            !old(self).pending_map().contains_key(id),
            final(self).next_id == old(self).next_id + 1,
            final(self).pending@ == old(self).pending@.push((id, req)),
            final(self).pending_map() == old(self).pending_map().insert(id, req),
            final(self).lang_id == old(self).lang_id,
            final(self).lang_settings == old(self).lang_settings,
            final(self).root == old(self).root,
            final(self).server_capabilities == old(self).server_capabilities,
    {
        let id = self.next_id;
        self.next_id = self.next_id + 1;
        proof {
            assert(!has_key(old(self).pending@, id)) by {
                if has_key(old(self).pending@, id) {
                    let i = choose|i: int|
                        0 <= i < old(self).pending@.len() && old(self).pending@[i].0 == id;
                    assert(old(self).pending@[i].0 < id);
                }
            }
            lemma_pairs_map_domain(old(self).pending@, id);
            lemma_pairs_map_push(old(self).pending@, id, req);
        }
        self.pending.push((id, req));
        proof {
            let s = self.pending@;
            assert forall|i: int, j: int| 0 <= i < j < s.len() implies s[i].0 != s[j].0 by {
                if j < s.len() - 1 {
                    assert(old(self).pending@[i].0 != old(self).pending@[j].0);
                } else {
                    assert(s[i].0 == old(self).pending@[i].0 < id);
                }
            }
        }
        id
    }

    /// Remove and return the continuation matching a response identifier;
    /// an identifier with no matching entry finds nothing and changes
    /// nothing.
    pub fn resolve_continuation(&mut self, id: u64) -> (r: Option<PendingRequest>)
        requires
            old(self).wf(),
        ensures
            final(self).wf(),
            final(self).lang_id == old(self).lang_id,
            final(self).lang_settings == old(self).lang_settings,
            final(self).root == old(self).root,
            final(self).server_capabilities == old(self).server_capabilities,
            final(self).next_id == old(self).next_id,
            old(self).pending_map().contains_key(id) ==> {
                &&& r == Some(old(self).pending_map()[id])
                &&& final(self).pending_map() == old(self).pending_map().remove(id)
            },
            !old(self).pending_map().contains_key(id) ==> r is None && *final(self) == *old(self),
    {
        let mut i: usize = 0;
        while i < self.pending.len()
            invariant
                *self == *old(self),
                self.wf(),
                0 <= i <= self.pending@.len(),
                forall|t: int| 0 <= t < i ==> self.pending@[t].0 != id,
            decreases self.pending@.len() - i,
        {
            if self.pending[i].0 == id {
                proof {
                    lemma_pairs_map_domain(self.pending@, id);
                    lemma_pairs_map_index(self.pending@, i as int);
                    lemma_pairs_map_remove(self.pending@, i as int);
                    lemma_keys_distinct_remove(self.pending@, i as int);
                    assert forall|t: int| 0 <= t < self.pending@.remove(i as int).len() implies self.pending@.remove(
                        i as int,
                    )[t].0 < self.next_id by {
                        let t0 = if t < i as int { t } else { t + 1 };
                        assert(self.pending@.remove(i as int)[t] == self.pending@[t0]);
                    }
                }
                let pair = self.pending.remove(i);
                return Some(pair.1);
            }
            i += 1;
        }
        proof {
            assert(!has_key(self.pending@, id));
            lemma_pairs_map_domain(self.pending@, id);
        }
        None
    }

    /// True iff this handler's workspace root is the file's path or an
    /// ancestor of it; used to route `DidOpen` events.
    pub fn owns_path(&self, path: &FsPath) -> (r: bool)
        ensures
            r == is_path_prefix(self.root@, path@),
    {
        let n = self.root.components.len();
        if n > path.components.len() {
            return false;
        }
        let mut i: usize = 0;
        while i < n
            invariant
                0 <= i <= n,
                n == self.root.components@.len(),
                n <= path.components@.len(),
                forall|t: int| 0 <= t < i ==> path@[t] == self.root@[t],
            decreases n - i,
        {
            if !self.root.components[i].eq(&path.components[i]) {
                assert(path@[i as int] != self.root@[i as int]);
                return false;
            }
            i += 1;
        }
        true
    }
}

/// The pending table after the responses for `ids` were delivered, in
/// that order: each delivery removes exactly its own identifier, which is
/// what `resolve_continuation` — and `handle_lsp_msg` through it — ensure
/// of every call (`pending_map().remove(id)`).
pub open spec fn remove_all(m: Map<u64, PendingRequest>, ids: Seq<u64>) -> Map<u64, PendingRequest>
    decreases ids.len(),
{
    if ids.len() == 0 {
        m
    } else {
        remove_all(m.remove(ids[0]), ids.drop_first())
    }
}

proof fn lemma_remove_all_key(m: Map<u64, PendingRequest>, ids: Seq<u64>, k: u64)
    ensures
        remove_all(m, ids).contains_key(k) == (m.contains_key(k) && !ids.contains(k)),
        m.contains_key(k) && !ids.contains(k) ==> remove_all(m, ids)[k] == m[k],
    decreases ids.len(),
{
    if ids.len() > 0 {
        lemma_remove_all_key(m.remove(ids[0]), ids.drop_first(), k);
        assert(ids.contains(k) == (ids[0] == k || ids.drop_first().contains(k))) by {
            if ids.contains(k) {
                let w = choose|w: int| 0 <= w < ids.len() && ids[w] == k;
                if w > 0 {
                    assert(ids.drop_first()[w - 1] == k);
                }
            }
            if ids.drop_first().contains(k) {
                let w = choose|w: int|
                    0 <= w < ids.drop_first().len() && ids.drop_first()[w] == k;
                assert(ids[w + 1] == k);
            }
        }
    }
}

/// Law (request/response correlation, any number of requests): let `ids`
/// be the distinct identifiers of concurrently issued requests, in the
/// arbitrary order their responses arrive.  Then the `j`-th delivery
/// still finds exactly the continuation registered under its own
/// identifier; the identifier is gone immediately afterwards, so a
/// re-delivery finds nothing; after all deliveries none of `ids` is
/// pending; and every other entry keeps its continuation untouched.
pub proof fn lemma_correlation_sequence(m: Map<u64, PendingRequest>, ids: Seq<u64>)
    requires
        forall|a: int, b: int| 0 <= a < b < ids.len() ==> ids[a] != ids[b],
    ensures
        forall|j: int|
            0 <= j < ids.len() && m.contains_key(ids[j]) ==> #[trigger] remove_all(
                m,
                ids.take(j),
            ).contains_key(ids[j]) && remove_all(m, ids.take(j))[ids[j]] == m[ids[j]],
        forall|j: int|
            0 <= j < ids.len() ==> !(#[trigger] remove_all(m, ids.take(j + 1)).contains_key(
                ids[j],
            )),
        forall|k: u64| ids.contains(k) ==> !(#[trigger] remove_all(m, ids).contains_key(k)),
        forall|k: u64|
            !ids.contains(k) ==> #[trigger] remove_all(m, ids).contains_key(k) == m.contains_key(k)
                && (m.contains_key(k) ==> remove_all(m, ids)[k] == m[k]),
{
    assert forall|j: int| 0 <= j < ids.len() && m.contains_key(ids[j]) implies #[trigger] remove_all(
        m,
        ids.take(j),
    ).contains_key(ids[j]) && remove_all(m, ids.take(j))[ids[j]] == m[ids[j]] by {
        assert(!ids.take(j).contains(ids[j])) by {
            if ids.take(j).contains(ids[j]) {
                let w = choose|w: int| 0 <= w < j && ids.take(j)[w] == ids[j];
                assert(ids[w] == ids[j]);
            }
        }
        lemma_remove_all_key(m, ids.take(j), ids[j]);
    }
    assert forall|j: int| 0 <= j < ids.len() implies !(#[trigger] remove_all(
        m,
        ids.take(j + 1),
    ).contains_key(ids[j])) by {
        assert(ids.take(j + 1).contains(ids[j])) by {
            assert(ids.take(j + 1)[j] == ids[j]);
        }
        lemma_remove_all_key(m, ids.take(j + 1), ids[j]);
    }
    assert forall|k: u64| ids.contains(k) implies !(#[trigger] remove_all(m, ids).contains_key(
        k,
    )) by {
        lemma_remove_all_key(m, ids, k);
    }
    assert forall|k: u64| !ids.contains(k) implies #[trigger] remove_all(m, ids).contains_key(k)
        == m.contains_key(k) && (m.contains_key(k) ==> remove_all(m, ids)[k] == m[k]) by {
        lemma_remove_all_key(m, ids, k);
    }
}

/// Law (request/response correlation): resolving an identifier removes
/// exactly its own entry.  A second delivery of the same identifier finds
/// nothing; every other identifier keeps its own continuation; and two
/// distinct identifiers may be resolved in either order with the same
/// result.
pub proof fn lemma_correlation(m: Map<u64, PendingRequest>, id1: u64, id2: u64)
    requires
        id1 != id2,
    ensures
        !m.remove(id1).contains_key(id1),
        m.remove(id1).contains_key(id2) == m.contains_key(id2),
        m.contains_key(id2) ==> m.remove(id1)[id2] == m[id2],
        m.remove(id1).remove(id2) == m.remove(id2).remove(id1),
{
    assert(m.remove(id1).remove(id2) =~= m.remove(id2).remove(id1));
}

} // verus!
