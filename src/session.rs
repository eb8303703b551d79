//! The state of one child session: request tracking, the thread and root
//! maps of its workspaces, and the decisions of its reader loop.
use vstd::prelude::*;
use crate::json::{Json, model, jget, ostr, opt_view};
use crate::path::{
    normalize_path_for_matching, normalized_path, matching_form, resolve_workspace_for_cwd_matching,
};
use crate::retry::{
    with_nested_payload,
    RetryContexts, extract_turn_error_details, apply_nested_error_payload,
    can_retry_turn_start_error, set_turn_error_will_retry, extract_response_error_message,
    response_error_message_of,
};
use crate::routing::{
    extract_thread_id, extract_turn_id, extract_thread_entries_from_thread_list_result,
    resolve_routed_workspace_id,
    should_broadcast_global_workspace_notification, thread_id_of, turn_id_of, routed_workspace,
    thread_id_in, thread_list_entries, entries_view, resolves_form,
    resolve_spawned_thread_workspace, extract_thread_cwd,
};
use crate::table::{Table, has_key, lemma_lookup_none, lemma_lookup_unique};
use crate::text::{str_eq, concat};

verus! {

/// Where a request came from, kept until its response arrives.
#[derive(Debug)]
pub struct RequestContext {
    pub workspace_id: String,
    pub method: String,
}

/// What the reader loop does with one inbound message.
pub enum Delivery {
    /// Wakes the caller waiting on request `id`.
    Response { id: u64, value: Json },
    /// Goes to the callback registered for a background thread.
    Background { thread_id: String, value: Json },
    /// Goes to one workspace.
    Emit { workspace_id: String, value: Json },
    /// Goes to each of several workspaces.
    Broadcast { workspace_ids: Vec<String>, value: Json },
    /// Is dropped.
    Dropped,
}

/// A `turn/start` to send again in the background.
#[derive(Debug)]
pub struct RetryRequest {
    pub turn_id: String,
    pub workspace_id: String,
    pub thread_id: String,
    pub params: Json,
}

/// The decisions for one inbound message.
pub struct InboundOutcome {
    pub delivery: Delivery,
    pub retry: Option<RetryRequest>,
    /// The workspace of the request that this message answers, if any.
    pub request_workspace: Option<String>,
}

/// The numeric id of a message.
pub open spec fn message_id_of(v: Json) -> Option<u64> {
    match jget(v, "id"@) {
        Some(Json::UInt(n)) => Some(n),
        _ => None,
    }
}

/// Whether a message answers a request: it carries `result` or `error`.
pub open spec fn is_answer(v: Json) -> bool {
    jget(v, "result"@) is Some || jget(v, "error"@) is Some
}

/// The method of a message.
pub open spec fn method_of(v: Json) -> Option<Seq<char>> {
    ostr(jget(v, "method"@))
}

/// Whether a retry of turn `u` is due for the `error` notification `v`:
/// its record exists and its details, read with the nested payload, allow
/// a retry.
pub open spec fn retry_due(retries: RetryContexts, v: Json, u: Seq<char>, nested: Option<Json>) -> bool {
    match (crate::retry::turn_error_details_of(v), retries.at(u)) {
        (Some(d0), Some(c)) => crate::retry::retry_allowed(with_nested_payload(d0, nested), true, c.attempts),
        _ => false,
    }
}

/// The value that a delivery carries.
pub open spec fn delivered_value(d: Delivery) -> Option<Json> {
    match d {
        Delivery::Response { id: _, value } => Some(value),
        Delivery::Background { thread_id: _, value } => Some(value),
        Delivery::Emit { workspace_id: _, value } => Some(value),
        Delivery::Broadcast { workspace_ids: _, value } => Some(value),
        Delivery::Dropped => None,
    }
}

/// Whether a message is a notification: it has a method and answers no request.
pub open spec fn is_notification(v: Json) -> bool {
    jget(v, "method"@) is Some && !(message_id_of(v) is Some && is_answer(v))
}

/// The context of the pending request `n` of `s`.
pub open spec fn context_of(s: SessionState, n: u64) -> RequestContext {
    s.request_context@[choose|i: int| 0 <= i < s.pending@.len() && s.pending@[i] == n].1
}

/// The context of the pending request that `v` answers, if any.
pub open spec fn answered_context(s: SessionState, v: Json) -> Option<RequestContext> {
    match message_id_of(v) {
        Some(n) => if is_answer(v) && s.is_pending(n) {
            Some(context_of(s, n))
        } else {
            None
        },
        None => None,
    }
}

/// The workspace that a thread's message is routed by: the mapping when
/// the message is routed (before an archive removes it).
pub open spec fn routing_map(before: SessionState, after: SessionState, v: Json) -> Option<Seq<char>> {
    match thread_id_of(v) {
        Some(t) => if method_of(v) == Some("thread/archived"@) {
            opt_view(before.thread_workspace.at(t))
        } else {
            opt_view(after.thread_workspace.at(t))
        },
        None => None,
    }
}

/// Where a message is routed, by the destination rules.
pub open spec fn destination(before: SessionState, after: SessionState, v: Json, request_workspace: Option<Seq<char>>) -> Option<Seq<char>> {
    routed_workspace(
        thread_id_of(v),
        routing_map(before, after, v),
        request_workspace,
        before.owner_workspace_id@,
        before.workspace_ids.entries@.len() as nat,
    )
}

/// How a notification routed to `w` is delivered: to the callback of a
/// background thread; to every attached workspace when it is global and
/// names no thread; else to `w`.
pub open spec fn notification_goes(s: SessionState, v: Json, w: Seq<char>, d: Delivery) -> bool {
    delivery_for(s, thread_id_of(v), method_of(v), w, d)
}

/// How a notification of thread `tid` and method `method` routed to `w` is delivered.
pub open spec fn delivery_for(
    s: SessionState,
    tid: Option<Seq<char>>,
    method: Option<Seq<char>>,
    w: Seq<char>,
    d: Delivery,
) -> bool {
    if tid is Some && s.background_threads.at(tid->0) is Some {
        d matches Delivery::Background { thread_id, value: _ } && thread_id@ == tid->0
    } else if (match method {
        Some(m) => crate::routing::is_global_method(m),
        None => false,
    }) && tid is None && s.workspace_ids.entries@.len() > 0 {
        d matches Delivery::Broadcast { workspace_ids, value: _ } && workspace_ids@.len()
            == s.workspace_ids.entries@.len() && forall|i: int|
            0 <= i < workspace_ids@.len() ==> #[trigger] workspace_ids@[i] == s.workspace_ids.entries@[i].0
    } else {
        d matches Delivery::Emit { workspace_id, value: _ } && workspace_id@ == w
    }
}

/// Where a started thread `t` maps: to its parent's workspace when the
/// parent is mapped, else to a best root for its directory, else as before.
pub open spec fn started_mapped(
    before: Table<String>,
    after: Table<String>,
    roots: Table<String>,
    canonical: Table<String>,
    v: Json,
    t: Seq<char>,
) -> bool {
    let spawned = if t.len() == 0 {
        None
    } else {
        match crate::routing::parent_thread_id_of(v) {
            Some(p) => opt_view(before.at(p)),
            None => None,
        }
    };
    &&& match spawned {
        Some(w) => opt_view(after.at(t)) == Some(w),
        None => match crate::routing::cwd_of(v) {
            Some(c) => {
                let n = matching_form(c, opt_view(canonical.at(c)));
                if n.len() > 0 && crate::path::some_root_matches(roots.entries@, n) {
                    after.at(t) matches Some(w) && crate::path::is_best_root(roots.entries@, n, w@)
                } else {
                    after == before
                }
            },
            None => after == before,
        },
    }
    &&& forall|q: Seq<char>| q != t ==> #[trigger] after.at(q) == before.at(q)
}

/// Whether a listing entry names a directory that some root matches.
pub open spec fn entry_matches(e: (Seq<char>, Option<Seq<char>>), roots: Table<String>, canonical: Table<String>) -> bool {
    match e.1 {
        Some(c) => {
            let n = matching_form(c, opt_view(canonical.at(c)));
            n.len() > 0 && crate::path::some_root_matches(roots.entries@, n)
        },
        None => false,
    }
}

/// Every thread whose last matching entry among the first `upto` of a
/// listing has directory form `n` maps to a best root for `n`.
pub open spec fn listed_mapped(
    map: Table<String>,
    roots: Table<String>,
    canonical: Table<String>,
    listing: Seq<(Seq<char>, Option<Seq<char>>)>,
    upto: int,
) -> bool {
    forall|k: int|
        0 <= k < upto && entry_matches(#[trigger] listing[k], roots, canonical) && (forall|j: int|
            k < j < upto && listing[j].0 == listing[k].0 ==> !entry_matches(listing[j], roots, canonical))
            ==> (map.at(listing[k].0) matches Some(w) && crate::path::is_best_root(
            roots.entries@,
            matching_form(listing[k].1->0, opt_view(canonical.at(listing[k].1->0))),
            w@,
        ))
}

/// The ids of the request contexts, in order.
pub open spec fn context_ids(s: Seq<(u64, RequestContext)>) -> Seq<u64> {
    Seq::new(s.len(), |i: int| s[i].0)
}

/// The state of a child session.
pub struct SessionState {
    pub owner_workspace_id: String,
    pub next_id: u64,
    pub pending: Vec<u64>,
    pub request_context: Vec<(u64, RequestContext)>,
    pub thread_workspace: Table<String>,
    pub workspace_ids: Table<bool>,
    pub workspace_roots: Table<String>,
    pub background_threads: Table<bool>,
    pub retries: RetryContexts,
}

impl SessionState {
    /// The session's invariant: a request id is pending exactly when it has a
    /// context, ids are unique and below the next id, and the maps are well formed.
    pub open spec fn wf(&self) -> bool {
        &&& self.pending@ == context_ids(self.request_context@)
        &&& forall|i: int, j: int| 0 <= i < j < self.pending@.len() ==> self.pending@[i] != self.pending@[j]
        &&& forall|i: int| 0 <= i < self.pending@.len() ==> #[trigger] self.pending@[i] < self.next_id
        &&& self.thread_workspace.wf()
        &&& self.workspace_ids.wf()
        &&& self.workspace_roots.wf()
        &&& self.background_threads.wf()
        &&& self.retries.wf()
        &&& self.maps_attached()
    }

    /// Every thread maps to an attached workspace, and every root belongs to one.
    pub open spec fn maps_attached(&self) -> bool {
        &&& forall|q: Seq<char>|
            #[trigger] self.thread_workspace.at(q) is Some ==> self.workspace_ids.at(
                self.thread_workspace.at(q)->0@,
            ) is Some
        &&& forall|q: Seq<char>|
            #[trigger] self.workspace_roots.at(q) is Some ==> self.workspace_ids.at(q) is Some
    }

    /// Whether request `id` is pending.
    pub open spec fn is_pending(&self, id: u64) -> bool {
        exists|i: int| 0 <= i < self.pending@.len() && self.pending@[i] == id
    }

    /// A new session owned by `owner_workspace_id`, whose root is the
    /// normalised `root` (used as given, even when empty).
    pub fn new(owner_workspace_id: String, root: String) -> (r: SessionState)
        ensures
            r.wf(),
            r.owner_workspace_id == owner_workspace_id,
            r.next_id == 1,
            r.pending@.len() == 0,
            r.workspace_ids.entries@.len() == 1,
            r.workspace_ids.at(owner_workspace_id@) == Some(true),
            r.workspace_roots.at(owner_workspace_id@) == Some(root),
    {
        let mut ids: Table<bool> = Table::new();
        ids.insert(owner_workspace_id.clone(), true);
        let mut roots: Table<String> = Table::new();
        roots.insert(owner_workspace_id.clone(), root);
        let r = SessionState {
            owner_workspace_id,
            next_id: 1,
            pending: Vec::new(),
            request_context: Vec::new(),
            thread_workspace: Table::new(),
            workspace_ids: ids,
            workspace_roots: roots,
            background_threads: Table::new(),
            retries: RetryContexts::new(),
        };
        assert(r.pending@ =~= context_ids(r.request_context@));
        r
    }

    /// Attaches a workspace to the session.
    pub fn register_workspace(&mut self, workspace_id: &str)
        requires
            old(self).wf(),
        ensures
            final(self).wf(),
            final(self).workspace_ids.at(workspace_id@) == Some(true),
            forall|q: Seq<char>| q != workspace_id@ ==> #[trigger] final(self).workspace_ids.at(q) == old(self).workspace_ids.at(q),
            final(self).pending == old(self).pending,
            final(self).request_context == old(self).request_context,
            final(self).next_id == old(self).next_id,
            final(self).thread_workspace == old(self).thread_workspace,
            final(self).workspace_roots == old(self).workspace_roots,
            final(self).retries == old(self).retries,
            final(self).background_threads == old(self).background_threads,
            final(self).owner_workspace_id == old(self).owner_workspace_id,
    {
        self.workspace_ids.insert(workspace_id.to_owned(), true);
    }

    /// Attaches a workspace, with the root at `workspace_path` when one is
    /// given; `canonical` is the filesystem's canonical form of that path, if
    /// it has one. An empty normal form sets no root.
    pub fn register_workspace_with_path(
        &mut self,
        workspace_id: &str,
        workspace_path: Option<&str>,
        canonical: Option<&str>,
    )
        requires
            old(self).wf(),
        ensures
            final(self).wf(),
            final(self).workspace_ids.at(workspace_id@) == Some(true),
            match workspace_path {
                Some(p) if normalized_path(p@).len() > 0 => final(self).workspace_roots.at(workspace_id@) matches Some(r)
                    && r@ == match canonical {
                        Some(c) if normalized_path(c@).len() > 0 => normalized_path(c@),
                        _ => normalized_path(p@),
                    },
                _ => final(self).workspace_roots == old(self).workspace_roots,
            },
    {
        self.register_workspace(workspace_id);
        if let Some(path) = workspace_path {
            let normalized = normalize_path_for_matching(path, canonical);
            if !normalized.as_str().is_empty() {
                self.workspace_roots.insert(workspace_id.to_owned(), normalized);
            }
        }
    }

    /// Detaches a workspace and forgets its root.
    pub fn unregister_workspace(&mut self, workspace_id: &str)
        requires
            old(self).wf(),
        ensures
            final(self).wf(),
            final(self).workspace_ids.at(workspace_id@) is None,
            final(self).workspace_roots.at(workspace_id@) is None,
            forall|q: Seq<char>| q != workspace_id@ ==> #[trigger] final(self).workspace_ids.at(q) == old(self).workspace_ids.at(q),
            forall|q: Seq<char>| q != workspace_id@ ==> #[trigger] final(self).workspace_roots.at(q) == old(self).workspace_roots.at(q),
            forall|q: Seq<char>| #[trigger] final(self).thread_workspace.at(q) == (match old(self).thread_workspace.at(q) {
                Some(w) => if w@ == workspace_id@ { None } else { Some(w) },
                None => None,
            }),
    {
        let ghost before = *self;
        let mut keep: Vec<bool> = Vec::new();
        let mut i: usize = 0;
        while i < self.thread_workspace.entries.len()
            invariant
                i <= self.thread_workspace.entries@.len(),
                keep@.len() == i,
                forall|k: int| 0 <= k < i ==> #[trigger] keep@[k] == (self.thread_workspace.entries@[k].1@ != workspace_id@),
            decreases self.thread_workspace.entries.len() - i,
        {
            keep.push(!str_eq(self.thread_workspace.entries[i].1.as_str(), workspace_id));
            i = i + 1;
        }
        self.thread_workspace.retain_where(&keep);
        self.workspace_ids.remove(workspace_id);
        self.workspace_roots.remove(workspace_id);
        proof {
            let te = before.thread_workspace.entries@;
            assert forall|q: Seq<char>| #[trigger] self.thread_workspace.at(q) == (match before.thread_workspace.at(q) {
                Some(w) => if w@ == workspace_id@ { None } else { Some(w) },
                None => None,
            }) by {
                lemma_lookup_none(te, q);
                if has_key(te, q) {
                    let k = choose|k: int| 0 <= k < te.len() && #[trigger] te[k].0@ == q;
                    lemma_lookup_unique(te, k);
                    assert(keep@[k] == (te[k].1@ != workspace_id@));
                } else if self.thread_workspace.at(q) is Some {
                    assert(before.thread_workspace.at(q) is Some);
                }
            }
            assert forall|q: Seq<char>| #[trigger] self.thread_workspace.at(q) is Some implies self.workspace_ids.at(
                self.thread_workspace.at(q)->0@,
            ) is Some by {
                assert(before.thread_workspace.at(q) is Some);
            }
            assert forall|q: Seq<char>| #[trigger] self.workspace_roots.at(q) is Some implies self.workspace_ids.at(q) is Some by {
                assert(before.workspace_roots.at(q) is Some);
            }
        }
    }

    /// The attached workspaces.
    pub fn workspace_ids_snapshot(&self) -> (r: Vec<String>)
        ensures
            r@.len() == self.workspace_ids.entries@.len(),
            forall|i: int| 0 <= i < r@.len() ==> #[trigger] r@[i] == self.workspace_ids.entries@[i].0,
    {
        let mut out: Vec<String> = Vec::new();
        let mut i: usize = 0;
        while i < self.workspace_ids.entries.len()
            invariant
                i <= self.workspace_ids.entries@.len(),
                out@.len() == i,
                forall|k: int| 0 <= k < i ==> #[trigger] out@[k] == self.workspace_ids.entries@[k].0,
            decreases self.workspace_ids.entries.len() - i,
        {
            out.push(self.workspace_ids.entries[i].0.clone());
            i = i + 1;
        }
        out
    }

    /// Routes the notifications of `thread_id` to its background callback.
    pub fn add_background_thread(&mut self, thread_id: &str)
        requires
            old(self).wf(),
        ensures
            final(self).wf(),
            final(self).background_threads.at(thread_id@) == Some(true),
    {
        self.background_threads.insert(thread_id.to_owned(), true);
    }

    /// Stops routing the notifications of `thread_id` to a background callback.
    pub fn remove_background_thread(&mut self, thread_id: &str)
        requires
            old(self).wf(),
        ensures
            final(self).wf(),
            final(self).background_threads.at(thread_id@) is None,
    {
        self.background_threads.remove(thread_id);
    }
}

impl SessionState {
    /// Opens request `method` of workspace `workspace_id`: allocates the next
    /// id, attaches the workspace, records the request as pending with its
    /// context, maps a thread id found in `params` to the workspace, and
    /// returns the id and the message to write. `None`, with nothing changed,
    /// once the ids are used up.
    pub fn begin_request(&mut self, workspace_id: &str, method: &str, params: Json) -> (r: Option<
        (u64, Json),
    >)
        requires
            old(self).wf(),
        ensures
            final(self).wf(),
            old(self).next_id == u64::MAX ==> (r is None && *final(self) == *old(self)),
            old(self).next_id < u64::MAX ==> (r matches Some((id, line)) && {
                &&& id == old(self).next_id
                &&& final(self).next_id == id + 1
                &&& final(self).pending@ == old(self).pending@.push(id)
                &&& final(self).request_context@.last().1.workspace_id@ == workspace_id@
                &&& final(self).request_context@.last().1.method@ == method@
                &&& final(self).workspace_ids.at(workspace_id@) == Some(true)
                &&& thread_id_in(Some(params)) matches Some(t) ==> opt_view(final(self).thread_workspace.at(t))
                    == Some(workspace_id@)
                &&& jget(line, "id"@) == Some(Json::UInt(id))
                &&& ostr(jget(line, "method"@)) == Some(method@)
                &&& jget(line, "params"@) matches Some(p) && model(p) == model(params)
            }),
    {
        if self.next_id == u64::MAX {
            return None;
        }
        let id = self.next_id;
        self.next_id = id + 1;
        self.register_workspace(workspace_id);
        let ghost before = self.request_context@;
        self.pending.push(id);
        self.request_context.push((id, RequestContext { workspace_id: workspace_id.to_owned(), method: method.to_owned() }));
        proof {
            assert(self.pending@ =~= context_ids(self.request_context@));
            assert forall|i: int| 0 <= i < self.pending@.len() implies #[trigger] self.pending@[i] < self.next_id by {
                if i < self.pending@.len() - 1 {
                    assert(self.pending@[i] == old(self).pending@[i]);
                }
            }
        }
        let thread_id = crate::routing::thread_id_from(Some(&params));
        if let Some(t) = thread_id {
            self.thread_workspace.insert(t, workspace_id.to_owned());
        }
        let ghost pm = params;
        let mut fields: Vec<(String, Json)> = Vec::new();
        fields.push(("id".to_owned(), Json::UInt(id)));
        fields.push(("method".to_owned(), Json::Str(method.to_owned())));
        fields.push(("params".to_owned(), params));
        proof {
            reveal_strlit("id");
            reveal_strlit("method");
            reveal_strlit("params");
            let fs = fields@;
            assert(fs[1].0@[0] != "params"@[0]);
            crate::table::lemma_lookup_at(fs, "id"@, 0);
            crate::table::lemma_lookup_at(fs, "method"@, 1);
            crate::table::lemma_lookup_at(fs, "params"@, 2);
        }
        let line = Json::Object(fields);
        Some((id, line))
    }
}

impl SessionState {
    /// Stops tracking request `id`, returning its context when it was pending.
    pub fn remove_request(&mut self, id: u64) -> (r: Option<RequestContext>)
        requires
            old(self).wf(),
        ensures
            final(self).wf(),
            !final(self).is_pending(id),
            r is Some <==> old(self).is_pending(id),
            old(self).is_pending(id) ==> exists|i: int|
                0 <= i < old(self).pending@.len() && old(self).pending@[i] == id
                    && final(self).pending@ == old(self).pending@.remove(i)
                    && r == Some(old(self).request_context@[i].1),
            !old(self).is_pending(id) ==> *final(self) == *old(self),
            final(self).next_id == old(self).next_id,
            final(self).thread_workspace == old(self).thread_workspace,
            final(self).workspace_ids == old(self).workspace_ids,
            final(self).workspace_roots == old(self).workspace_roots,
            final(self).background_threads == old(self).background_threads,
            final(self).retries == old(self).retries,
            final(self).owner_workspace_id == old(self).owner_workspace_id,
    {
        let mut i: usize = 0;
        while i < self.pending.len()
            invariant
                self.wf(),
                *self == *old(self),
                i <= self.pending@.len(),
                forall|k: int| 0 <= k < i ==> self.pending@[k] != id,
            decreases self.pending.len() - i,
        {
            if self.pending[i] == id {
                let ghost before = *self;
                self.pending.remove(i);
                let (_, ctx) = self.request_context.remove(i);
                proof {
                    assert(before.pending@[i as int] == before.request_context@[i as int].0);
                    assert(self.pending@ =~= context_ids(self.request_context@));
                    assert forall|a: int, b: int| 0 <= a < b < self.pending@.len() implies self.pending@[a]
                        != self.pending@[b] by {
                        if b < i {
                        } else if a < i {
                            assert(self.pending@[b] == before.pending@[b + 1]);
                        } else {
                            assert(self.pending@[a] == before.pending@[a + 1]);
                            assert(self.pending@[b] == before.pending@[b + 1]);
                        }
                    }
                    assert forall|a: int| 0 <= a < self.pending@.len() implies #[trigger] self.pending@[a]
                        < self.next_id by {
                        if a < i {
                            assert(self.pending@[a] == before.pending@[a]);
                        } else {
                            assert(self.pending@[a] == before.pending@[a + 1]);
                        }
                    }
                    assert(self.pending@ == before.pending@.remove(i as int));
                    assert(before.request_context@[i as int].1 == ctx);
                    if self.is_pending(id) {
                        let a = choose|a: int| 0 <= a < self.pending@.len() && self.pending@[a] == id;
                        if a < i {
                            assert(before.pending@[a] == id);
                        } else {
                            assert(before.pending@[a + 1] == id);
                        }
                    }
                }
                return Some(ctx);
            }
            i = i + 1;
        }
        None
    }

    /// Forgets a request whose message could not be written or whose
    /// caller stopped waiting.
    pub fn abandon_request(&mut self, id: u64)
        requires
            old(self).wf(),
        ensures
            final(self).wf(),
            !final(self).is_pending(id),
            final(self).pending@.len() <= old(self).pending@.len(),
            forall|n: u64| final(self).is_pending(n) ==> old(self).is_pending(n),
            final(self).next_id == old(self).next_id,
            final(self).thread_workspace == old(self).thread_workspace,
            final(self).workspace_ids == old(self).workspace_ids,
            final(self).workspace_roots == old(self).workspace_roots,
            final(self).background_threads == old(self).background_threads,
            final(self).retries == old(self).retries,
            final(self).owner_workspace_id == old(self).owner_workspace_id,
    {
        let ghost before = *self;
        let _ = self.remove_request(id);
        proof {
            assert forall|n: u64| self.is_pending(n) implies before.is_pending(n) by {
                if before.is_pending(id) {
                    let i = choose|i: int|
                        0 <= i < before.pending@.len() && before.pending@[i] == id
                            && self.pending@ == before.pending@.remove(i)
                            && true;
                    let a = choose|a: int| 0 <= a < self.pending@.len() && self.pending@[a] == n;
                    if a < i {
                        assert(before.pending@[a] == n);
                    } else {
                        assert(before.pending@[a + 1] == n);
                    }
                }
            }
        }
    }

    /// What follows the end of the child's output: every pending request is
    /// dropped, as are all request contexts and retry records. Returns the
    /// ids that were pending, whose callers are to be told the request was canceled.
    pub fn close(&mut self) -> (r: Vec<u64>)
        requires
            old(self).wf(),
        ensures
            final(self).wf(),
            r@ == old(self).pending@,
            final(self).pending@.len() == 0,
            final(self).request_context@.len() == 0,
            forall|t: Seq<char>| #[trigger] final(self).retries.at(t) is None,
    {
        let mut ids: Vec<u64> = Vec::new();
        core::mem::swap(&mut ids, &mut self.pending);
        self.request_context.clear();
        self.retries.clear_all();
        proof {
            assert(self.pending@ =~= context_ids(self.request_context@));
        }
        ids
    }

    /// What follows a response to request `method` with `params` from
    /// `workspace_id`: after `turn/start` the turn is recorded for a retry.
    pub fn after_response(&mut self, workspace_id: &str, method: &str, params: &Json, response: &Json)
        requires
            old(self).wf(),
        ensures
            final(self).wf(),
            final(self).pending == old(self).pending,
            final(self).request_context == old(self).request_context,
            method@ != "turn/start"@ ==> *final(self) == *old(self),
            method@ == "turn/start"@ ==> crate::retry::registered(
                old(self).retries,
                final(self).retries,
                workspace_id@,
                *params,
                *response,
            ),
    {
        if str_eq(method, "turn/start") {
            self.retries.register_turn_start_retry_context(workspace_id, params, response);
        }
    }
}

/// The canonical path recorded for directory `cwd`, if any.
fn canonical_form<'a>(canonical_cwds: &'a Table<String>, cwd: &str) -> (r: Option<&'a str>)
    ensures
        crate::routing::str_opt_view(r) == opt_view(canonical_cwds.at(cwd@)),
{
    match canonical_cwds.get(cwd) {
        Some(c) => Some(c.as_str()),
        None => None,
    }
}

/// The directories that resolving a message may match against roots: a
/// started thread's directory, then those of the threads a listing names.
pub fn inbound_cwds(value: &Json) -> (r: Vec<String>)
    ensures
        crate::routing::cwd_of(*value) matches Some(c) ==> exists|i: int| 0 <= i < r@.len() && #[trigger] r@[i]@ == c,
        forall|k: int|
            0 <= k < thread_list_entries(*value).len() && thread_list_entries(*value)[k].1 is Some ==> exists|i: int|
                0 <= i < r@.len() && #[trigger] r@[i]@ == thread_list_entries(*value)[k].1->0,
{
    let mut out: Vec<String> = Vec::new();
    if let Some(c) = extract_thread_cwd(value) {
        out.push(c);
    }
    let ghost first = out@;
    let entries = extract_thread_entries_from_thread_list_result(value);
    let ghost listed = thread_list_entries(*value);
    let mut i: usize = 0;
    while i < entries.len()
        invariant
            i <= entries@.len(),
            entries_view(entries@) == listed,
            out@.len() >= first.len(),
            forall|j: int| 0 <= j < first.len() ==> out@[j] == first[j],
            forall|k: int|
                0 <= k < i && listed[k].1 is Some ==> exists|j: int|
                    0 <= j < out@.len() && #[trigger] out@[j]@ == listed[k].1->0,
        decreases entries.len() - i,
    {
        if let Some(c) = &entries[i].cwd {
            let ghost before = out@;
            out.push(c.clone());
            proof {
                assert(listed[i as int] == crate::routing::entry_view(entries@[i as int]));
                assert(out@[before.len() as int]@ == listed[i as int].1->0);
                assert forall|k: int|
                    0 <= k < i + 1 && listed[k].1 is Some implies exists|j: int|
                        0 <= j < out@.len() && #[trigger] out@[j]@ == listed[k].1->0 by {
                    if k < i {
                        let j = choose|j: int| 0 <= j < before.len() && #[trigger] before[j]@ == listed[k].1->0;
                        assert(out@[j] == before[j]);
                    }
                }
            }
        } else {
            proof {
                assert(listed[i as int] == crate::routing::entry_view(entries@[i as int]));
            }
        }
        i = i + 1;
    }
    proof {
        if crate::routing::cwd_of(*value) is Some {
            assert(out@[0] == first[0]);
        }
    }
    out
}

fn opt_str_ref(o: &Option<String>) -> (r: Option<&str>)
    ensures
        crate::routing::str_opt_view(r) == opt_view(*o),
{
    match o {
        Some(s) => Some(s.as_str()),
        None => None,
    }
}

fn is_method(m: &Option<String>, name: &str) -> (r: bool)
    ensures
        r == (opt_view(*m) == Some(name@)),
{
    match m {
        Some(s) => str_eq(s.as_str(), name),
        None => false,
    }
}

impl SessionState {
    /// Maps the threads of a `thread/list` response to the workspaces whose
    /// roots best match their working directories. A thread whose mapping
    /// changes is one of the listing whose directory resolves to its new workspace.
    pub fn map_listed_threads(&mut self, value: &Json, canonical_cwds: &Table<String>)
        requires
            old(self).wf(),
        ensures
            final(self).wf(),
            listed_mapped(
                final(self).thread_workspace,
                old(self).workspace_roots,
                *canonical_cwds,
                thread_list_entries(*value),
                thread_list_entries(*value).len() as int,
            ),
            forall|q: Seq<char>|
                opt_view(#[trigger] final(self).thread_workspace.at(q)) != opt_view(old(self).thread_workspace.at(q))
                    ==> exists|i: int|
                    0 <= i < thread_list_entries(*value).len() && #[trigger] thread_list_entries(*value)[i].0 == q
                        && entry_resolves(
                        thread_list_entries(*value)[i],
                        old(self).workspace_roots,
                        *canonical_cwds,
                        opt_view(final(self).thread_workspace.at(q)),
                    ),
            final(self).pending == old(self).pending,
            final(self).request_context == old(self).request_context,
            final(self).next_id == old(self).next_id,
            final(self).workspace_ids == old(self).workspace_ids,
            final(self).workspace_roots == old(self).workspace_roots,
            final(self).background_threads == old(self).background_threads,
            final(self).retries == old(self).retries,
            final(self).owner_workspace_id == old(self).owner_workspace_id,
    {
        let entries = extract_thread_entries_from_thread_list_result(value);
        let ghost listed = thread_list_entries(*value);
        let mut i: usize = 0;
        while i < entries.len()
            invariant
                self.wf(),
                entries_view(entries@) == listed,
                i <= entries@.len(),
                listed_mapped(self.thread_workspace, old(self).workspace_roots, *canonical_cwds, listed, i as int),
                forall|q: Seq<char>|
                    opt_view(#[trigger] self.thread_workspace.at(q)) != opt_view(old(self).thread_workspace.at(q))
                        ==> exists|k: int|
                        0 <= k < i && #[trigger] listed[k].0 == q && entry_resolves(listed[k], old(self).workspace_roots, *canonical_cwds, opt_view(self.thread_workspace.at(q))),
                self.pending == old(self).pending,
                self.request_context == old(self).request_context,
                self.next_id == old(self).next_id,
                self.workspace_ids == old(self).workspace_ids,
                self.workspace_roots == old(self).workspace_roots,
                self.background_threads == old(self).background_threads,
                self.retries == old(self).retries,
                self.owner_workspace_id == old(self).owner_workspace_id,
            decreases entries.len() - i,
        {
            if let Some(cwd) = &entries[i].cwd {
                let canon = canonical_form(canonical_cwds, cwd.as_str());
                if let Some(w) = resolve_workspace_for_cwd_matching(cwd.as_str(), canon, &self.workspace_roots) {
                    let ghost mid = self.thread_workspace;
                    let ghost wv = w@;
                    proof {
                        let n = matching_form(cwd@, opt_view(canonical_cwds.at(cwd@)));
                        let roots = self.workspace_roots.entries@;
                        let k = choose|k: int|
                            0 <= k < roots.len() && #[trigger] roots[k].0@ == wv && crate::path::root_matches(roots[k].1@, n) && (
                            forall|j: int|
                                0 <= j < roots.len() && crate::path::root_matches(#[trigger] roots[j].1@, n) ==> roots[j].1@.len()
                                    <= roots[k].1@.len());
                        lemma_lookup_unique(roots, k);
                        assert(roots[k].0@ == wv);
                        assert(self.workspace_roots.at(wv) is Some);
                        assert(self.workspace_ids.at(wv) is Some);
                    }
                    self.thread_workspace.insert(entries[i].thread_id.clone(), w);
                    proof {
                        assert forall|q: Seq<char>| #[trigger] self.thread_workspace.at(q) is Some implies self.workspace_ids.at(
                            self.thread_workspace.at(q)->0@,
                        ) is Some by {
                            if q != entries@[i as int].thread_id@ {
                                assert(mid.at(q) is Some);
                            }
                        }
                        assert(listed[i as int] == crate::routing::entry_view(entries@[i as int]));
                        assert forall|q: Seq<char>|
                            opt_view(#[trigger] self.thread_workspace.at(q)) != opt_view(old(self).thread_workspace.at(q))
                                implies exists|k: int|
                                0 <= k < i + 1 && #[trigger] listed[k].0 == q && entry_resolves(listed[k], old(self).workspace_roots, *canonical_cwds, opt_view(self.thread_workspace.at(q))) by {
                            if q == entries@[i as int].thread_id@ {
                                assert(listed[i as int].0 == q);
                            } else {
                                assert(self.thread_workspace.at(q) == mid.at(q));
                                let k = choose|k: int|
                                    0 <= k < i && #[trigger] listed[k].0 == q && entry_resolves(listed[k], old(self).workspace_roots, *canonical_cwds, opt_view(mid.at(q)));
                            }
                        }
                    }
                }
            }
            i = i + 1;
        }
    }

    /// Maps the thread of an answer to the workspace of its request, while
    /// that workspace is attached.
    fn map_answer_thread(&mut self, thread_id: &Option<String>, request_workspace: &Option<String>)
        requires
            old(self).wf(),
        ensures
            final(self).wf(),
            request_workspace is None ==> final(self).thread_workspace == old(self).thread_workspace,
            final(self).pending == old(self).pending,
            final(self).request_context == old(self).request_context,
            final(self).next_id == old(self).next_id,
            final(self).workspace_ids == old(self).workspace_ids,
            final(self).workspace_roots == old(self).workspace_roots,
            final(self).background_threads == old(self).background_threads,
            final(self).retries == old(self).retries,
            final(self).owner_workspace_id == old(self).owner_workspace_id,
    {
        if let Some(w) = request_workspace {
            if let Some(t) = thread_id {
                if self.workspace_ids.get(w.as_str()).is_some() {
                    let ghost mid = *self;
                    self.thread_workspace.insert(t.clone(), w.clone());
                    proof {
                        assert forall|q: Seq<char>| #[trigger] self.thread_workspace.at(q) is Some implies self.workspace_ids.at(
                            self.thread_workspace.at(q)->0@,
                        ) is Some by {
                            if q != t@ {
                                assert(mid.thread_workspace.at(q) is Some);
                            }
                        }
                    }
                }
            }
        }
    }

    /// Maps a newly started thread to its parent's workspace, or else to the
    /// workspace whose root best matches its directory.
    fn map_started_thread(&mut self, value: &Json, thread_id: &Option<String>, canonical_cwds: &Table<String>)
        requires
            old(self).wf(),
        ensures
            final(self).wf(),
            thread_id is None ==> final(self).thread_workspace == old(self).thread_workspace,
            thread_id matches Some(t) ==> started_mapped(
                old(self).thread_workspace,
                final(self).thread_workspace,
                old(self).workspace_roots,
                *canonical_cwds,
                *value,
                t@,
            ),
            final(self).pending == old(self).pending,
            final(self).request_context == old(self).request_context,
            final(self).next_id == old(self).next_id,
            final(self).workspace_ids == old(self).workspace_ids,
            final(self).workspace_roots == old(self).workspace_roots,
            final(self).background_threads == old(self).background_threads,
            final(self).retries == old(self).retries,
            final(self).owner_workspace_id == old(self).owner_workspace_id,
    {
        if let Some(t) = thread_id {
            let resolved = match resolve_spawned_thread_workspace(t.as_str(), value, &self.thread_workspace) {
                Some(w) => {
                    proof {
                        let p = crate::routing::parent_thread_id_of(*value)->0;
                        assert(self.thread_workspace.at(p) is Some);
                    }
                    Some(w)
                },
                None => match extract_thread_cwd(value) {
                    Some(cwd) => {
                        let canon = canonical_form(canonical_cwds, cwd.as_str());
                        let r = resolve_workspace_for_cwd_matching(cwd.as_str(), canon, &self.workspace_roots);
                        proof {
                            if r is Some {
                                let n = matching_form(cwd@, opt_view(canonical_cwds.at(cwd@)));
                                self.lemma_best_root_attached(n, r->0@);
                            }
                        }
                        r
                    },
                    None => None,
                },
            };
            if let Some(w) = resolved {
                let ghost mid = *self;
                self.thread_workspace.insert(t.clone(), w);
                proof {
                    assert forall|q: Seq<char>| #[trigger] self.thread_workspace.at(q) is Some implies self.workspace_ids.at(
                        self.thread_workspace.at(q)->0@,
                    ) is Some by {
                        if q != t@ {
                            assert(mid.thread_workspace.at(q) is Some);
                        }
                    }
                }
            }
        }
    }

    /// The workspace of a best matching root is attached.
    proof fn lemma_best_root_attached(&self, n: Seq<char>, w: Seq<char>)
        requires
            self.wf(),
            crate::path::is_best_root(self.workspace_roots.entries@, n, w),
        ensures
            self.workspace_ids.at(w) is Some,
    {
        let roots = self.workspace_roots.entries@;
        let i = choose|i: int|
            0 <= i < roots.len() && #[trigger] roots[i].0@ == w && crate::path::root_matches(roots[i].1@, n) && (
            forall|j: int|
                0 <= j < roots.len() && crate::path::root_matches(#[trigger] roots[j].1@, n) ==> roots[j].1@.len()
                    <= roots[i].1@.len());
        lemma_lookup_unique(roots, i);
        assert(self.workspace_roots.at(w) is Some);
    }

    /// Forgets an archived thread: its mapping and its retry records.
    fn forget_thread(&mut self, thread_id: &str)
        requires
            old(self).wf(),
        ensures
            final(self).wf(),
            final(self).thread_workspace.at(thread_id@) is None,
            forall|q: Seq<char>| #[trigger] final(self).retries.at(q) == (match old(self).retries.at(q) {
                Some(c) => if c.thread_id@ == thread_id@ {
                    None
                } else {
                    Some(c)
                },
                None => None,
            }),
            final(self).pending == old(self).pending,
            final(self).request_context == old(self).request_context,
            final(self).next_id == old(self).next_id,
            final(self).workspace_ids == old(self).workspace_ids,
            final(self).workspace_roots == old(self).workspace_roots,
            final(self).background_threads == old(self).background_threads,
            final(self).owner_workspace_id == old(self).owner_workspace_id,
    {
        let ghost mid = *self;
        self.thread_workspace.remove(thread_id);
        self.retries.clear_turn_start_retry_contexts_for_thread(thread_id);
        proof {
            assert forall|q: Seq<char>| #[trigger] self.thread_workspace.at(q) is Some implies self.workspace_ids.at(
                self.thread_workspace.at(q)->0@,
            ) is Some by {
                assert(mid.thread_workspace.at(q) is Some);
            }
        }
    }

    /// The retry decision for an `error` notification of turn `turn_id`: a
    /// retry-safe error of a recorded turn with its retry unspent reserves
    /// the retry and flags the notification `willRetry`; a record whose
    /// retry cannot be reserved, or whose error the server does not retry,
    /// is dropped.
    fn retry_after_error(&mut self, value: &mut Json, turn_id: &String, nested_error_payload: Option<Json>) -> (r:
        Option<RetryRequest>)
        requires
            old(self).wf(),
        ensures
            final(self).wf(),
            final(self).pending == old(self).pending,
            final(self).request_context == old(self).request_context,
            final(self).next_id == old(self).next_id,
            final(self).thread_workspace == old(self).thread_workspace,
            final(self).workspace_ids == old(self).workspace_ids,
            final(self).workspace_roots == old(self).workspace_roots,
            final(self).background_threads == old(self).background_threads,
            final(self).owner_workspace_id == old(self).owner_workspace_id,
            r is None ==> *final(value) == *old(value),
            r is Some ==> crate::retry::will_retry_set(*old(value), *final(value), true),
            r is Some <==> retry_due(old(self).retries, *old(value), turn_id@, nested_error_payload),
            r matches Some(q) ==> {
                &&& q.turn_id@ == turn_id@
                &&& old(self).retries.at(q.turn_id@) matches Some(c) && c.attempts == 0
                    && c.workspace_id@ == q.workspace_id@ && c.thread_id@ == q.thread_id@
                    && model(c.params) == model(q.params)
                &&& final(self).retries.at(q.turn_id@) matches Some(c2) && c2.attempts == 1
            },
            forall|q: Seq<char>| q != turn_id@ ==> #[trigger] final(self).retries.at(q) == old(self).retries.at(q),
            r is None ==> match crate::retry::turn_error_details_of(*old(value)) {
                Some(d0) => if with_nested_payload(d0, nested_error_payload).2 {
                    final(self).retries == old(self).retries
                } else {
                    final(self).retries.at(turn_id@) is None
                },
                None => final(self).retries == old(self).retries,
            },
    {
        let raw = match extract_turn_error_details(value) {
            Some(d) => d,
            None => return None,
        };
        let details = match &nested_error_payload {
            Some(doc) => apply_nested_error_payload(raw, Some(doc)),
            None => apply_nested_error_payload(raw, None),
        };
        let (has_context, attempts) = match self.retries.get_turn_start_retry_context(turn_id.as_str()) {
            Some(c) => (true, c.attempts),
            None => (false, 0),
        };
        if can_retry_turn_start_error(&details, has_context, attempts) {
            match self.retries.reserve_turn_start_retry(turn_id.as_str()) {
                Some(snapshot) => {
                    set_turn_error_will_retry(value, true);
                    Some(RetryRequest {
                        turn_id: turn_id.clone(),
                        workspace_id: snapshot.workspace_id,
                        thread_id: snapshot.thread_id,
                        params: snapshot.params,
                    })
                },
                None => {
                    self.retries.clear_turn_start_retry_context(turn_id.as_str());
                    None
                },
            }
        } else {
            if !details.will_retry {
                self.retries.clear_turn_start_retry_context(turn_id.as_str());
            }
            None
        }
    }

    /// Takes the context of the pending request that a message with id
    /// `maybe_id` answers, when it is an answer.
    fn take_answer(&mut self, maybe_id: Option<u64>, has_answer: bool) -> (r: Option<RequestContext>)
        requires
            old(self).wf(),
        ensures
            final(self).wf(),
            r == (match maybe_id {
                Some(n) => if has_answer && old(self).is_pending(n) {
                    Some(context_of(*old(self), n))
                } else {
                    None
                },
                None => None,
            }),
            (maybe_id is Some && has_answer) ==> !final(self).is_pending(maybe_id->0),
            final(self).pending@.len() <= old(self).pending@.len(),
            forall|m: u64| final(self).is_pending(m) ==> old(self).is_pending(m),
            final(self).next_id == old(self).next_id,
            final(self).thread_workspace == old(self).thread_workspace,
            final(self).workspace_ids == old(self).workspace_ids,
            final(self).workspace_roots == old(self).workspace_roots,
            final(self).background_threads == old(self).background_threads,
            final(self).retries == old(self).retries,
            final(self).owner_workspace_id == old(self).owner_workspace_id,
    {
        match maybe_id {
            Some(id) => {
                if has_answer {
                    let ghost before = *self;
                    let r = self.remove_request(id);
                    proof {
                        if before.is_pending(id) {
                            let i = choose|i: int|
                                0 <= i < before.pending@.len() && before.pending@[i] == id
                                    && self.pending@ == before.pending@.remove(i)
                                    && r == Some(before.request_context@[i].1);
                            let j = choose|j: int| 0 <= j < before.pending@.len() && before.pending@[j] == id;
                            assert(i == j);
                            assert forall|m: u64| self.is_pending(m) implies before.is_pending(m) by {
                                let a = choose|a: int| 0 <= a < self.pending@.len() && self.pending@[a] == m;
                                if a < i {
                                    assert(before.pending@[a] == m);
                                } else {
                                    assert(before.pending@[a + 1] == m);
                                }
                            }
                        }
                    }
                    r
                } else {
                    None
                }
            },
            None => None,
        }
    }

    /// The decisions of the reader loop for one parsed message `value`:
    /// answers are matched to their pending requests, the thread map learns
    /// from the message, the destination workspace is chosen, retry records
    /// are updated, and a retry-safe error of a recorded turn reserves its one
    /// retry. `nested_error_payload` is the JSON document that the message of
    /// an `error` notification holds, when it holds one; `canonical_cwds` maps
    /// directories named in the message (see `inbound_cwds`) to their
    /// canonical paths on the filesystem, where they have one.
    #[verifier::rlimit(100)]
    pub fn handle_inbound(
        &mut self,
        value: Json,
        nested_error_payload: Option<Json>,
        canonical_cwds: &Table<String>,
    ) -> (r: InboundOutcome)
        requires
            old(self).wf(),
        ensures
            final(self).wf(),
            final(self).next_id == old(self).next_id,
            final(self).workspace_ids == old(self).workspace_ids,
            final(self).workspace_roots == old(self).workspace_roots,
            final(self).background_threads == old(self).background_threads,
            final(self).owner_workspace_id == old(self).owner_workspace_id,
            final(self).pending@.len() <= old(self).pending@.len(),
            forall|n: u64| final(self).is_pending(n) ==> old(self).is_pending(n),
            (message_id_of(value) is Some && is_answer(value)) ==> !final(self).is_pending(
                message_id_of(value)->0,
            ),
            r.request_workspace == (match answered_context(*old(self), value) {
                Some(c) => Some(c.workspace_id),
                None => None,
            }),
            answered_context(*old(self), value) is Some ==> (r.delivery matches Delivery::Response {
                id,
                value: _,
            } && id == message_id_of(value)->0),
            delivered_value(r.delivery) matches Some(v2) ==> (if r.retry is None {
                v2 == value
            } else {
                crate::retry::will_retry_set(value, v2, true)
            }),
            (is_notification(value) && destination(*old(self), *final(self), value, None) is None) ==> (
            r.delivery is Dropped && r.retry is None && final(self).thread_workspace == old(
                self,
            ).thread_workspace && final(self).retries == old(self).retries),
            (is_notification(value) && destination(*old(self), *final(self), value, None) is Some) ==> notification_goes(
                *old(self),
                value,
                destination(*old(self), *final(self), value, None)->0,
                r.delivery,
            ),
            (is_notification(value) && method_of(value) == Some("thread/started"@) && thread_id_of(value) is Some)
                ==> started_mapped(
                old(self).thread_workspace,
                final(self).thread_workspace,
                old(self).workspace_roots,
                *canonical_cwds,
                value,
                thread_id_of(value)->0,
            ),
            (answered_context(*old(self), value) is Some && answered_context(*old(self), value)->0.method@
                == "thread/list"@ && method_of(value) != Some("thread/started"@) && method_of(value) != Some(
                "thread/archived"@,
            )) ==> listed_mapped(
                final(self).thread_workspace,
                old(self).workspace_roots,
                *canonical_cwds,
                thread_list_entries(value),
                thread_list_entries(value).len() as int,
            ),
            (method_of(value) == Some("turn/completed"@) && destination(
                *old(self),
                *final(self),
                value,
                opt_view(r.request_workspace),
            ) is Some && turn_id_of(value) is Some) ==> final(self).retries.at(turn_id_of(value)->0) is None,
            (is_notification(value) && method_of(value) == Some("thread/archived"@) && destination(
                *old(self),
                *final(self),
                value,
                None,
            ) is Some && thread_id_of(value) is Some) ==> {
                &&& final(self).thread_workspace.at(thread_id_of(value)->0) is None
                &&& forall|q: Seq<char>| #[trigger] final(self).retries.at(q) == (match old(self).retries.at(q) {
                    Some(c) => if c.thread_id@ == thread_id_of(value)->0 {
                        None
                    } else {
                        Some(c)
                    },
                    None => None,
                })
            },
            (method_of(value) == Some("error"@) && destination(
                *old(self),
                *final(self),
                value,
                opt_view(r.request_workspace),
            ) is Some && turn_id_of(value) is Some) ==> {
                &&& (r.retry is Some <==> retry_due(old(self).retries, value, turn_id_of(value)->0, nested_error_payload))
                &&& (r.retry is None && crate::retry::turn_error_details_of(value) is Some && !with_nested_payload(
                    crate::retry::turn_error_details_of(value)->0,
                    nested_error_payload,
                ).2) ==> final(self).retries.at(turn_id_of(value)->0) is None
            },
            r.retry matches Some(q) ==> {
                &&& method_of(value) == Some("error"@)
                &&& turn_id_of(value) == Some(q.turn_id@)
                &&& old(self).retries.at(q.turn_id@) matches Some(c) && c.attempts == 0
                    && c.workspace_id@ == q.workspace_id@ && c.thread_id@ == q.thread_id@
                    && model(c.params) == model(q.params)
                &&& final(self).retries.at(q.turn_id@) matches Some(c2) && c2.attempts == 1
            },
    {
        proof {
            reveal_strlit("error");
            reveal_strlit("thread/archived");
            reveal_strlit("turn/completed");
            reveal_strlit("thread/started");
            reveal_strlit("thread/list");
            assert("error"@.len() != "thread/archived"@.len());
            assert("error"@.len() != "turn/completed"@.len());
            assert("error"@.len() != "thread/started"@.len());
            assert("thread/started"@[8] != "thread/archived"@[8]);
            assert("turn/completed"@.len() != "thread/archived"@.len());
            assert("turn/completed"@[1] != "thread/started"@[1]);
        }
        let maybe_id: Option<u64> = match value.get("id") {
            Some(j) => j.as_u64(),
            None => None,
        };
        let has_method = value.get("method").is_some();
        let has_answer = value.get("result").is_some() || value.get("error").is_some();
        let method_name: Option<String> = crate::json::str_of(value.get("method"));
        let thread_id = extract_thread_id(&value);
        let turn_id = extract_turn_id(&value);
        let ghost orig = *self;
        let (request_workspace, request_method) = match self.take_answer(maybe_id, has_answer) {
            Some(ctx) => (Some(ctx.workspace_id), Some(ctx.method)),
            None => (None, None),
        };
        let answered = request_workspace.is_some();
        self.map_answer_thread(&thread_id, &request_workspace);
        if is_method(&request_method, "thread/list") {
            self.map_listed_threads(&value, canonical_cwds);
        }
        if is_method(&method_name, "thread/started") {
            self.map_started_thread(&value, &thread_id, canonical_cwds);
        }
        let ghost learned = *self;
        let mapped: Option<String> = match &thread_id {
            Some(t) => match self.thread_workspace.get(t.as_str()) {
                Some(w) => Some(w.clone()),
                None => None,
            },
            None => None,
        };
        let count = self.workspace_ids.len();
        let routed = resolve_routed_workspace_id(
            opt_str_ref(&thread_id),
            opt_str_ref(&mapped),
            opt_str_ref(&request_workspace),
            self.owner_workspace_id.as_str(),
            count,
        );
        let routed = match routed {
            Some(w) => w,
            None => {
                return InboundOutcome { delivery: Delivery::Dropped, retry: None, request_workspace };
            },
        };
        if is_method(&method_name, "thread/archived") {
            if let Some(t) = &thread_id {
                self.forget_thread(t.as_str());
            }
        }
        if is_method(&method_name, "turn/completed") {
            if let Some(t) = &turn_id {
                self.retries.clear_turn_start_retry_context(t.as_str());
            }
        }
        let mut value = value;
        let retry: Option<RetryRequest> = if is_method(&method_name, "error") {
            match &turn_id {
                Some(t) => self.retry_after_error(&mut value, t, nested_error_payload),
                None => None,
            }
        } else {
            None
        };
        let delivery = if let Some(id) = maybe_id {
            if has_answer {
                if answered {
                    Delivery::Response { id, value }
                } else {
                    Delivery::Dropped
                }
            } else if has_method {
                self.notification_delivery(value, &thread_id, &method_name, &request_workspace, routed)
            } else {
                match self.take_answer(Some(id), true) {
                    Some(_) => Delivery::Response { id, value },
                    None => Delivery::Dropped,
                }
            }
        } else if has_method {
            self.notification_delivery(value, &thread_id, &method_name, &request_workspace, routed)
        } else {
            Delivery::Dropped
        };
        InboundOutcome { delivery, retry, request_workspace }
    }

    /// Where a notification goes: to a background thread's callback, to
    /// every attached workspace for a global one, else to `routed`.
    fn notification_delivery(
        &self,
        value: Json,
        thread_id: &Option<String>,
        method_name: &Option<String>,
        request_workspace: &Option<String>,
        routed: String,
    ) -> (r: Delivery)
        ensures
            r matches Delivery::Emit { workspace_id: w, value: _ } ==> w == routed,
            !(r is Dropped),
            !(r is Response),
            delivered_value(r) == Some(value),
            request_workspace is None ==> delivery_for(*self, opt_view(*thread_id), opt_view(*method_name), routed@, r),
    {
        if let Some(t) = thread_id {
            if self.background_threads.get(t.as_str()).is_some() {
                return Delivery::Background { thread_id: t.clone(), value };
            }
        }
        let thread_ref: Option<&String> = match thread_id {
            Some(t) => Some(t),
            None => None,
        };
        if should_broadcast_global_workspace_notification(
            opt_str_ref(method_name),
            thread_ref,
            opt_str_ref(request_workspace),
        ) {
            let ids = self.workspace_ids_snapshot();
            if ids.len() == 0 {
                return Delivery::Emit { workspace_id: routed, value };
            }
            return Delivery::Broadcast { workspace_ids: ids, value };
        }
        Delivery::Emit { workspace_id: routed, value }
    }
}

/// Whether a listing entry has a directory that resolves to the workspace `r`.
pub open spec fn entry_resolves(
    e: (Seq<char>, Option<Seq<char>>),
    roots: Table<String>,
    canonical: Table<String>,
    r: Option<Seq<char>>,
) -> bool {
    match e.1 {
        Some(c) => resolves_form(roots, matching_form(c, opt_view(canonical.at(c))), r) && r is Some,
        None => false,
    }
}

/// A session tracks a context for exactly the pending requests, so there are
/// as many of one as of the other.
pub proof fn lemma_pending_matches_contexts(s: SessionState)
    requires
        s.wf(),
    ensures
        s.pending@.len() == s.request_context@.len(),
        forall|i: int| 0 <= i < s.pending@.len() ==> s.pending@[i] == #[trigger] s.request_context@[i].0,
{
}

/// Replaying a `thread/list` response whose threads already map to the
/// workspaces their directories resolve to changes no mapping.
pub proof fn lemma_thread_list_replay_changes_nothing(
    s0: SessionState,
    s1: SessionState,
    value: Json,
    canonical: Table<String>,
)
    requires
        forall|i: int, w: Seq<char>|
            0 <= i < thread_list_entries(value).len() && #[trigger] entry_resolves(thread_list_entries(value)[i], s0.workspace_roots, canonical, Some(w)) ==> opt_view(
                s0.thread_workspace.at(thread_list_entries(value)[i].0),
            ) == Some(w),
        forall|q: Seq<char>|
            opt_view(#[trigger] s1.thread_workspace.at(q)) != opt_view(s0.thread_workspace.at(q)) ==> exists|i: int|
                0 <= i < thread_list_entries(value).len() && #[trigger] thread_list_entries(value)[i].0 == q
                    && entry_resolves(thread_list_entries(value)[i], s0.workspace_roots, canonical, opt_view(s1.thread_workspace.at(q))),
    ensures
        forall|q: Seq<char>| opt_view(#[trigger] s1.thread_workspace.at(q)) == opt_view(s0.thread_workspace.at(q)),
{
    assert forall|q: Seq<char>| opt_view(#[trigger] s1.thread_workspace.at(q)) == opt_view(s0.thread_workspace.at(q)) by {
        if opt_view(s1.thread_workspace.at(q)) != opt_view(s0.thread_workspace.at(q)) {
            let i = choose|i: int|
                0 <= i < thread_list_entries(value).len() && #[trigger] thread_list_entries(value)[i].0 == q
                    && entry_resolves(thread_list_entries(value)[i], s0.workspace_roots, canonical, opt_view(s1.thread_workspace.at(q)));
            let w = s1.thread_workspace.at(q)->0@;
            assert(entry_resolves(thread_list_entries(value)[i], s0.workspace_roots, canonical, Some(w)));
            assert(opt_view(s0.thread_workspace.at(thread_list_entries(value)[i].0)) == Some(w));
        }
    }
}

/// An object with the given members, in order.
fn object2(k1: &str, v1: Json, k2: &str, v2: Json) -> (r: Json)
    ensures
        r matches Json::Object(fs) && fs@.len() == 2 && fs@[0].0@ == k1@ && fs@[0].1 == v1
            && fs@[1].0@ == k2@ && fs@[1].1 == v2,
        k1@ != k2@ ==> jget(r, k1@) == Some(v1) && jget(r, k2@) == Some(v2),
{
    let mut fields: Vec<(String, Json)> = Vec::new();
    fields.push((k1.to_owned(), v1));
    fields.push((k2.to_owned(), v2));
    proof {
        crate::table::lemma_lookup_at(fields@, k1@, 0);
        if k1@ != k2@ {
            crate::table::lemma_lookup_at(fields@, k2@, 1);
        }
    }
    Json::Object(fields)
}

/// An object with one member.
fn object1(k: &str, v: Json) -> (r: Json)
    ensures
        r matches Json::Object(fs) && fs@.len() == 1 && fs@[0].0@ == k@ && fs@[0].1 == v,
        jget(r, k@) == Some(v),
{
    let mut fields: Vec<(String, Json)> = Vec::new();
    fields.push((k.to_owned(), v));
    proof {
        crate::table::lemma_lookup_at(fields@, k@, 0);
    }
    Json::Object(fields)
}

/// The text under `k` of the `params` of `v`.
pub open spec fn param_text(v: Json, k: Seq<char>) -> Option<Seq<char>> {
    ostr(crate::json::oget(jget(v, "params"@), k))
}

/// The notification that reports a line of the child's output that is not JSON.
pub fn parse_error_event(error: &str, raw: &str) -> (r: Json)
    ensures
        method_of(r) == Some("codex/parseError"@),
        param_text(r, "error"@) == Some(error@),
        param_text(r, "raw"@) == Some(raw@),
{
    proof {
        reveal_strlit("method");
        reveal_strlit("params");
        reveal_strlit("error");
        reveal_strlit("raw");
        assert("method"@[0] != "params"@[0]);
        assert("error"@.len() != "raw"@.len());
    }
    let params = object2("error", Json::string(error), "raw", Json::string(raw));
    object2("method", Json::string("codex/parseError"), "params", params)
}

/// The notification that carries a non-blank line of the child's error
/// output; none for a blank line.
pub fn stderr_event(line: &str) -> (r: Option<Json>)
    ensures
        crate::text::trimmed(line@).len() == 0 <==> r is None,
        r matches Some(v) ==> method_of(v) == Some("codex/stderr"@) && param_text(v, "message"@) == Some(
            line@,
        ),
{
    proof {
        reveal_strlit("method");
        reveal_strlit("params");
        assert("method"@[0] != "params"@[0]);
    }
    let t = crate::text::trim(line);
    if t.as_str().is_empty() {
        return None;
    }
    let params = object1("message", Json::string(line));
    Some(object2("method", Json::string("codex/stderr"), "params", params))
}

/// The notification that a workspace's session is ready.
pub fn connected_event(workspace_id: &str) -> (r: Json)
    ensures
        method_of(r) == Some("codex/connected"@),
        param_text(r, "workspaceId"@) == Some(workspace_id@),
{
    proof {
        reveal_strlit("method");
        reveal_strlit("params");
        assert("method"@[0] != "params"@[0]);
    }
    let params = object1("workspaceId", Json::string(workspace_id));
    object2("method", Json::string("codex/connected"), "params", params)
}

/// The params of the `initialize` handshake: who the client is (name
/// `codex_monitor`, title `Codex Monitor`, the given version), and that it
/// uses the experimental API.
pub fn build_initialize_params(client_version: &str) -> (r: Json)
    ensures
        jget(r, "capabilities"@) matches Some(c) && jget(c, "experimentalApi"@) == Some(Json::Bool(true)),
        ostr(crate::json::oget(jget(r, "clientInfo"@), "name"@)) == Some("codex_monitor"@),
        ostr(crate::json::oget(jget(r, "clientInfo"@), "title"@)) == Some("Codex Monitor"@),
        ostr(crate::json::oget(jget(r, "clientInfo"@), "version"@)) == Some(client_version@),
{
    proof {
        reveal_strlit("clientInfo");
        reveal_strlit("capabilities");
        reveal_strlit("name");
        reveal_strlit("title");
        reveal_strlit("version");
    }
    let mut info: Vec<(String, Json)> = Vec::new();
    info.push(("name".to_owned(), Json::string("codex_monitor")));
    info.push(("title".to_owned(), Json::string("Codex Monitor")));
    info.push(("version".to_owned(), Json::string(client_version)));
    proof {
        let fs = info@;
        assert(fs[0].0@[0] != "title"@[0]);
        crate::table::lemma_lookup_at(fs, "name"@, 0);
        crate::table::lemma_lookup_at(fs, "title"@, 1);
        crate::table::lemma_lookup_at(fs, "version"@, 2);
    }
    let caps = object1("experimentalApi", Json::Bool(true));
    proof {
        assert("clientInfo"@[1] != "capabilities"@[1]);
    }
    object2("clientInfo", Json::Object(info), "capabilities", caps)
}

/// A notification to the child: its method, and its params when given.
pub fn notification_message(method: &str, params: Option<Json>) -> (r: Json)
    ensures
        method_of(r) == Some(method@),
        jget(r, "params"@) == params,
{
    proof {
        reveal_strlit("method");
        reveal_strlit("params");
        assert("method"@[0] != "params"@[0]);
    }
    let mut fields: Vec<(String, Json)> = Vec::new();
    fields.push(("method".to_owned(), Json::string(method)));
    proof {
        crate::table::lemma_lookup_at(fields@, "method"@, 0);
    }
    match params {
        Some(p) => {
            fields.push(("params".to_owned(), p));
            proof {
                crate::table::lemma_lookup_at(fields@, "method"@, 0);
                crate::table::lemma_lookup_at(fields@, "params"@, 1);
            }
        },
        None => {
            proof {
                assert(fields@.drop_first() =~= Seq::<(String, Json)>::empty());
                assert(crate::table::lookup(fields@.drop_first(), "params"@) is None);
            }
        },
    }
    Json::Object(fields)
}

/// A response to a request of the child.
pub fn response_message(id: Json, result: Json) -> (r: Json)
    ensures
        r matches Json::Object(fs) && fs@.len() == 2 && fs@[0].0@ == "id"@ && fs@[0].1 == id
            && fs@[1].0@ == "result"@ && fs@[1].1 == result,
{
    object2("id", id, "result", result)
}

/// The error text of a retried `turn/start`: the transport's error, or the
/// error that its response carries; none when the retry went through.
pub open spec fn retry_error_of(result: Result<Json, String>) -> Option<Seq<char>> {
    match result {
        Ok(response) => response_error_message_of(response),
        Err(e) => Some(e@),
    }
}

impl SessionState {
    /// What follows the background retry of turn `retry.turn_id`: when it
    /// failed, the turn's record is dropped and the error notification to
    /// emit to the retry's workspace is returned, with `willRetry` false and
    /// the message `Automatic retry failed: <reason>`.
    pub fn finish_turn_start_retry(&mut self, retry: &RetryRequest, result: Result<Json, String>) -> (r:
        Option<Json>)
        requires
            old(self).wf(),
        ensures
            final(self).wf(),
            retry_error_of(result) is None <==> r is None,
            r is None ==> *final(self) == *old(self),
            r is Some ==> final(self).retries.at(retry.turn_id@) is None,
            r is Some ==> forall|q: Seq<char>| q != retry.turn_id@ ==> #[trigger] final(self).retries.at(q)
                == old(self).retries.at(q),
            r matches Some(v) ==> {
                &&& method_of(v) == Some("error"@)
                &&& param_text(v, "threadId"@) == Some(retry.thread_id@)
                &&& param_text(v, "turnId"@) == Some(retry.turn_id@)
                &&& ostr(crate::json::oget(crate::json::oget(jget(v, "params"@), "error"@), "message"@))
                    == Some("Automatic retry failed: "@ + retry_error_of(result)->0)
                &&& crate::json::oget(jget(v, "params"@), "willRetry"@) == Some(Json::Bool(false))
            },
    {
        let reason: Option<String> = match &result {
            Ok(response) => extract_response_error_message(response),
            Err(e) => Some(e.clone()),
        };
        let reason = match reason {
            Some(m) => m,
            None => return None,
        };
        self.retries.clear_turn_start_retry_context(retry.turn_id.as_str());
        let message = concat("Automatic retry failed: ", reason.as_str());
        let error = object1("message", Json::Str(message));
        let mut params: Vec<(String, Json)> = Vec::new();
        params.push(("threadId".to_owned(), Json::string(retry.thread_id.as_str())));
        params.push(("turnId".to_owned(), Json::string(retry.turn_id.as_str())));
        params.push(("error".to_owned(), error));
        params.push(("willRetry".to_owned(), Json::Bool(false)));
        proof {
            reveal_strlit("method");
            reveal_strlit("params");
            reveal_strlit("threadId");
            reveal_strlit("turnId");
            reveal_strlit("error");
            reveal_strlit("willRetry");
            assert("method"@[0] != "params"@[0]);
            let fs = params@;
            assert(fs[0].0@.len() != "turnId"@.len());
            assert(fs[0].0@.len() != "error"@.len() && fs[1].0@.len() != "error"@.len());
            assert(fs[0].0@[0] != "willRetry"@[0] && fs[1].0@.len() != "willRetry"@.len()
                && fs[2].0@.len() != "willRetry"@.len());
            crate::table::lemma_lookup_at(fs, "threadId"@, 0);
            crate::table::lemma_lookup_at(fs, "turnId"@, 1);
            crate::table::lemma_lookup_at(fs, "error"@, 2);
            crate::table::lemma_lookup_at(fs, "willRetry"@, 3);
        }
        let r = object2("method", Json::string("error"), "params", Json::Object(params));
        Some(r)
    }
}

} // verus!
