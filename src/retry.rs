//! The turn-start retry engine: reading turn errors, deciding whether a
//! failed turn may be started again, and the records of started turns.
use vstd::prelude::*;
use crate::json::{
    Json, JsonModel, model, jget, oget, ostr, obool, oobject, or_else, opt_view, deref_opt,
    get_opt, get_either,
};
use crate::routing::{
    extract_turn_start_request_thread_id, extract_turn_start_response_turn_id, response_turn_id_of,
    request_thread_id_of,
};
use crate::table::{
    Table, lookup, has_key, lemma_lookup_none, lemma_lookup_unique, lemma_lookup_same_keys,
    lemma_lookup_at,
};
use crate::text::{
    trim, trimmed, to_ascii_lowercase, ascii_lower, starts_with, contains, has_prefix, has_infix,
};

verus! {

/// How many automatic retries a started turn may have.
pub const MAX_TURN_START_RETRY_ATTEMPTS: u8 = 1;

/// What an `error` notification says of a failed turn.
#[derive(Debug)]
pub struct TurnErrorDetails {
    pub code: Option<String>,
    pub message: Option<String>,
    pub will_retry: bool,
}

/// The trimmed text of `o`, when that is not empty.
pub open spec fn non_empty_trimmed(o: Option<Seq<char>>) -> Option<Seq<char>> {
    match o {
        Some(s) => if trimmed(s).len() > 0 {
            Some(trimmed(s))
        } else {
            None
        },
        None => None,
    }
}

/// An error code in normal form: trimmed and in ASCII lower case; blank is none.
pub open spec fn normal_code(o: Option<Seq<char>>) -> Option<Seq<char>> {
    match non_empty_trimmed(o) {
        Some(t) => Some(ascii_lower(t)),
        None => None,
    }
}

/// The error code under `code`, `errorCode` or `error_code` of `e`.
pub open spec fn code_in(e: Option<Json>) -> Option<Seq<char>> {
    ostr(or_else(or_else(oget(e, "code"@), oget(e, "errorCode"@)), oget(e, "error_code"@)))
}

/// The details of an `error` notification as its fields give them, before a
/// message that is itself a JSON document is read.
pub open spec fn turn_error_details_of(v: Json) -> Option<(Option<Seq<char>>, Option<Seq<char>>, bool)> {
    let params = oobject(jget(v, "params"@));
    if params is None {
        None
    } else {
        let will_retry = match obool(or_else(oget(params, "willRetry"@), oget(params, "will_retry"@))) {
            Some(b) => b,
            None => false,
        };
        let error = oobject(oget(params, "error"@));
        let code = normal_code(code_in(error));
        let message = or_else(
            non_empty_trimmed(ostr(oget(error, "message"@))),
            non_empty_trimmed(ostr(oget(params, "message"@))),
        );
        Some((code, message, will_retry))
    }
}

/// The details once a message that parsed as the JSON document `parsed` is
/// read: the code and message of its `error` member (or of the document
/// itself) take precedence over those of the notification.
pub open spec fn with_nested_payload(
    d: (Option<Seq<char>>, Option<Seq<char>>, bool),
    parsed: Option<Json>,
) -> (Option<Seq<char>>, Option<Seq<char>>, bool) {
    match parsed {
        None => d,
        Some(doc) => {
            let nested = or_else(jget(doc, "error"@), Some(doc));
            let code = or_else(normal_code(code_in(nested)), d.0);
            let message = or_else(non_empty_trimmed(ostr(oget(nested, "message"@))), d.1);
            (code, message, d.2)
        },
    }
}

pub open spec fn details_view(d: TurnErrorDetails) -> (Option<Seq<char>>, Option<Seq<char>>, bool) {
    (opt_view(d.code), opt_view(d.message), d.will_retry)
}

/// Whether the details describe an error that a new turn may get past: a
/// `websocket_` code, or a message that asks for a new websocket connection.
pub open spec fn retry_safe(d: (Option<Seq<char>>, Option<Seq<char>>, bool)) -> bool {
    (d.0 matches Some(c) && has_prefix(c, "websocket_"@)) || (d.1 matches Some(m) && has_infix(
        ascii_lower(m),
        "websocket"@,
    ) && has_infix(ascii_lower(m), "create a new websocket connection"@))
}

fn non_empty_trim(o: Option<&String>) -> (r: Option<String>)
    ensures
        opt_view(r) == non_empty_trimmed(match o {
            Some(s) => Some(s@),
            None => None,
        }),
{
    match o {
        Some(s) => {
            let t = trim(s.as_str());
            if t.as_str().is_empty() {
                None
            } else {
                Some(t)
            }
        },
        None => None,
    }
}

/// An error code in normal form: trimmed and lower-cased, or none when blank.
pub fn normalize_turn_error_code(code: Option<&str>) -> (r: Option<String>)
    ensures
        opt_view(r) == normal_code(match code {
            Some(s) => Some(s@),
            None => None,
        }),
{
    match code {
        Some(value) => {
            let t = trim(value);
            if t.as_str().is_empty() {
                None
            } else {
                Some(to_ascii_lowercase(t.as_str()))
            }
        },
        None => None,
    }
}

fn str_ref_of(o: Option<&Json>) -> (r: Option<&String>)
    ensures
        (match r {
            Some(s) => Some(s@),
            None => None,
        }) == ostr(deref_opt(o)),
{
    match o {
        Some(Json::Str(s)) => Some(s),
        _ => None,
    }
}

fn object_of(o: Option<&Json>) -> (r: Option<&Json>)
    ensures
        deref_opt(r) == oobject(deref_opt(o)),
{
    match o {
        Some(j) => match j {
            Json::Object(_) => Some(j),
            _ => None,
        },
        None => None,
    }
}

fn code_from(e: Option<&Json>) -> (r: Option<String>)
    ensures
        opt_view(r) == normal_code(code_in(deref_opt(e))),
{
    let raw = match get_either(e, "code", "errorCode") {
        Some(v) => Some(v),
        None => get_opt(e, "error_code"),
    };
    match str_ref_of(raw) {
        Some(s) => normalize_turn_error_code(Some(s.as_str())),
        None => normalize_turn_error_code(None),
    }
}

/// The code, message and retry flag of an `error` notification, from its
/// `params`; `None` when `params` is not an object. A message that is itself
/// a JSON document is read further by `apply_nested_error_payload`.
pub fn extract_turn_error_details(value: &Json) -> (r: Option<TurnErrorDetails>)
    ensures
        match r {
            Some(d) => turn_error_details_of(*value) == Some(details_view(d)),
            None => turn_error_details_of(*value) is None,
        },
{
    let params = object_of(value.get("params"));
    if params.is_none() {
        return None;
    }
    let will_retry = match get_either(params, "willRetry", "will_retry") {
        Some(v) => match v.as_bool() {
            Some(b) => b,
            None => false,
        },
        None => false,
    };
    let error = object_of(get_opt(params, "error"));
    let code = code_from(error);
    let message = match non_empty_trim(str_ref_of(get_opt(error, "message"))) {
        Some(m) => Some(m),
        None => non_empty_trim(str_ref_of(get_opt(params, "message"))),
    };
    Some(TurnErrorDetails { code, message, will_retry })
}

/// The details once the message, parsed as the JSON document `parsed`, is
/// read: the code and the non-blank `message` of the document's `error`
/// member, or of the document itself, replace those of the notification.
/// `parsed` is `None` when the message is absent or not JSON.
pub fn apply_nested_error_payload(details: TurnErrorDetails, parsed: Option<&Json>) -> (r:
    TurnErrorDetails)
    ensures
        details_view(r) == with_nested_payload(details_view(details), deref_opt(parsed)),
{
    match parsed {
        None => details,
        Some(doc) => {
            let nested = match doc.get("error") {
                Some(e) => e,
                None => doc,
            };
            let code = match code_from(Some(nested)) {
                Some(c) => Some(c),
                None => details.code,
            };
            let message = match non_empty_trim(str_ref_of(nested.get("message"))) {
                Some(m) => Some(m),
                None => details.message,
            };
            TurnErrorDetails { code, message, will_retry: details.will_retry }
        },
    }
}

/// Whether a turn error is one that a new attempt may get past.
pub fn is_retry_safe_turn_start_error(details: &TurnErrorDetails) -> (r: bool)
    ensures
        r == retry_safe(details_view(*details)),
{
    if let Some(code) = &details.code {
        if starts_with(code.as_str(), "websocket_") {
            return true;
        }
    }
    match &details.message {
        Some(message) => {
            let normalized = to_ascii_lowercase(message.as_str());
            contains(normalized.as_str(), "websocket") && contains(
                normalized.as_str(),
                "create a new websocket connection",
            )
        },
        None => false,
    }
}

/// Whether a turn error is retried: a record of the turn exists, the server
/// does not retry it itself, the budget is not spent, and the error is retry-safe.
pub open spec fn retry_allowed(
    d: (Option<Seq<char>>, Option<Seq<char>>, bool),
    has_context: bool,
    attempts: u8,
) -> bool {
    has_context && !d.2 && attempts < MAX_TURN_START_RETRY_ATTEMPTS && retry_safe(d)
}

/// A turn whose record already counts one retry is not retried again, however
/// retry-safe its error.
pub proof fn lemma_spent_budget_blocks_retry(d: (Option<Seq<char>>, Option<Seq<char>>, bool), has_context: bool)
    ensures
        !retry_allowed(d, has_context, 1),
{
}

/// Whether a turn error is retried; see `retry_allowed`.
pub fn can_retry_turn_start_error(details: &TurnErrorDetails, has_context: bool, attempts: u8) -> (r:
    bool)
    ensures
        r == retry_allowed(details_view(*details), has_context, attempts),
{
    has_context && !details.will_retry && attempts < MAX_TURN_START_RETRY_ATTEMPTS
        && is_retry_safe_turn_start_error(details)
}

/// The text of a response's `error`: the string itself, or its `message`;
/// trimmed, and none when blank.
pub open spec fn response_error_message_of(v: Json) -> Option<Seq<char>> {
    match jget(v, "error"@) {
        Some(Json::Str(s)) => non_empty_trimmed(Some(s@)),
        Some(e) => non_empty_trimmed(ostr(oget(oobject(Some(e)), "message"@))),
        None => None,
    }
}

/// The error text of a response, if it carries one.
pub fn extract_response_error_message(value: &Json) -> (r: Option<String>)
    ensures
        opt_view(r) == response_error_message_of(*value),
{
    match value.get("error") {
        Some(Json::Str(s)) => non_empty_trim(Some(s)),
        Some(e) => non_empty_trim(str_ref_of(get_opt(object_of(Some(e)), "message"))),
        None => None,
    }
}

/// `obj` with its member `key` set to `v`: a present member keeps its place,
/// a new one is appended. Values that are not objects stay as they are.
pub fn with_member(obj: Json, key: &str, v: Json) -> (r: Json)
    ensures
        match obj {
            Json::Object(fs) => r matches Json::Object(fs2) && lookup(fs2@, key@) == Some(v) && (
            forall|q: Seq<char>| q != key@ ==> #[trigger] lookup(fs2@, q) == lookup(fs@, q)),
            _ => r == obj,
        },
{
    match obj {
        Json::Object(fields) => {
            let ghost before = fields@;
            let t = Table { entries: fields };
            let idx = t.index_of(key);
            let mut fields = t.entries;
            match idx {
                Some(i) => {
                    let (k, _) = fields.remove(i);
                    fields.insert(i, (k, v));
                    proof {
                        let after = fields@;
                        assert(after =~= before.update(i as int, (before[i as int].0, v)));
                        assert forall|j: int| 0 <= j < after.len() implies #[trigger] after[j].0@
                            == before[j].0@ by {}
                        lemma_lookup_at(after, key@, i as int);
                        assert forall|q: Seq<char>| q != key@ implies #[trigger] lookup(after, q)
                            == lookup(before, q) by {
                            assert forall|j: int|
                                0 <= j < after.len() && #[trigger] after[j].0@ == q implies after[j].1
                                == before[j].1 by {}
                            lemma_lookup_same_keys(after, before, q);
                        }
                    }
                    Json::Object(fields)
                },
                None => {
                    fields.push((key.to_owned(), v));
                    proof {
                        lemma_lookup_none(before, key@);
                        assert forall|q: Seq<char>| true implies #[trigger] lookup(fields@, q) == (
                        if lookup(before, q) is Some {
                            lookup(before, q)
                        } else if key@ == q {
                            Some(v)
                        } else {
                            None
                        }) by {
                            crate::table::lemma_lookup_push(
                                before,
                                fields@[before.len() as int],
                                q,
                            );
                            assert(fields@ == before.push(fields@[before.len() as int]));
                        }
                    }
                    Json::Object(fields)
                },
            }
        },
        other => other,
    }
}

/// `after` is `before` with `params.willRetry` set to `b` when `params` is an
/// object, every other member kept; else `after` is `before`.
pub open spec fn will_retry_set(before: Json, after: Json, b: bool) -> bool {
    match jget(before, "params"@) {
        Some(Json::Object(pf)) => (match after {
            Json::Object(ff) => jget(after, "params"@) matches Some(Json::Object(pf2)) && lookup(
                pf2@,
                "willRetry"@,
            ) == Some(Json::Bool(b)) && (forall|q: Seq<char>|
                q != "willRetry"@ ==> #[trigger] lookup(pf2@, q) == lookup(pf@, q)) && (forall|
                q: Seq<char>,
            | q != "params"@ ==> #[trigger] jget(after, q) == jget(before, q)),
            _ => false,
        }),
        _ => after == before,
    }
}

/// Marks an `error` notification as retried, or not, by setting
/// `params.willRetry`; a message without object `params` stays as it is.
pub fn set_turn_error_will_retry(value: &mut Json, will_retry: bool)
    ensures
        will_retry_set(*old(value), *final(value), will_retry),
{
    let mut taken = Json::Null;
    core::mem::swap(value, &mut taken);
    match taken {
        Json::Object(fields) => {
            let ghost before = fields@;
            let t = Table { entries: fields };
            let idx = t.index_of("params");
            let mut fields = t.entries;
            match idx {
                Some(i) => {
                    let is_obj = fields[i].1.is_object();
                    if is_obj {
                        proof {
                            lemma_lookup_at(before, "params"@, i as int);
                        }
                        let (k, p) = fields.remove(i);
                        let p2 = with_member(p, "willRetry", Json::Bool(will_retry));
                        fields.insert(i, (k, p2));
                        proof {
                            let after = fields@;
                            assert(after =~= before.update(i as int, (before[i as int].0, p2)));
                            assert forall|j: int| 0 <= j < after.len() implies #[trigger] after[j].0@
                                == before[j].0@ by {}
                            lemma_lookup_at(after, "params"@, i as int);
                            assert forall|q: Seq<char>| q != "params"@ implies #[trigger] lookup(
                                after,
                                q,
                            ) == lookup(before, q) by {
                                assert forall|j: int|
                                    0 <= j < after.len() && #[trigger] after[j].0@ == q implies after[j].1
                                    == before[j].1 by {}
                                lemma_lookup_same_keys(after, before, q);
                            }
                        }
                        *value = Json::Object(fields);
                    } else {
                        proof {
                            lemma_lookup_at(before, "params"@, i as int);
                        }
                        *value = Json::Object(fields);
                    }
                },
                None => {
                    proof {
                        lemma_lookup_none(before, "params"@);
                    }
                    *value = Json::Object(fields);
                },
            }
        },
        other => {
            *value = other;
        },
    }
}

/// A started turn that may be retried: where it was started, the request
/// params to send again, and how many retries were reserved.
#[derive(Debug)]
pub struct TurnStartRetryContext {
    pub workspace_id: String,
    pub thread_id: String,
    pub params: Json,
    pub attempts: u8,
}

/// What a record holds.
pub open spec fn record_view(c: TurnStartRetryContext) -> (Seq<char>, Seq<char>, JsonModel, u8) {
    (c.workspace_id@, c.thread_id@, model(c.params), c.attempts)
}

pub open spec fn opt_record_view(o: Option<TurnStartRetryContext>) -> Option<
    (Seq<char>, Seq<char>, JsonModel, u8),
> {
    match o {
        Some(c) => Some(record_view(c)),
        None => None,
    }
}

/// Each turn id has at most one retry record, and a record never counts
/// more than one retry.
pub proof fn lemma_retry_record_unique_and_bounded(r: RetryContexts, t: Seq<char>)
    requires
        r.wf(),
    ensures
        forall|i: int, j: int|
            0 <= i < r.table.entries@.len() && 0 <= j < r.table.entries@.len()
                && #[trigger] r.table.entries@[i].0@ == t && #[trigger] r.table.entries@[j].0@ == t
                ==> i == j,
        r.at(t) matches Some(c) ==> c.attempts <= 1,
{
}

/// The retry records of a session, keyed by turn id.
pub struct RetryContexts {
    pub table: Table<TurnStartRetryContext>,
}

/// `after` is `before` once a `turn/start` of `workspace_id` with `params`
/// answered by `response` is recorded: keyed by the response's turn id, for
/// the request's thread, with no retry spent, any earlier record of that
/// thread dropped; without a turn id or a thread id nothing changes.
pub open spec fn registered(
    before: RetryContexts,
    after: RetryContexts,
    workspace_id: Seq<char>,
    params: Json,
    response: Json,
) -> bool {
    match (response_turn_id_of(response), request_thread_id_of(params)) {
        (Some(t), Some(th)) => {
            &&& opt_record_view(after.at(t)) == Some((workspace_id, th, model(params), 0u8))
            &&& forall|q: Seq<char>|
                q != t ==> #[trigger] after.at(q) == (match before.at(q) {
                    Some(c) => if c.thread_id@ == th {
                        None
                    } else {
                        Some(c)
                    },
                    None => None,
                })
        },
        _ => after == before,
    }
}

impl RetryContexts {
    /// Keys are unique, no record exceeds the retry budget, and no two records
    /// belong to the same thread.
    pub open spec fn wf(&self) -> bool {
        &&& self.table.wf()
        &&& forall|t: Seq<char>| #[trigger] self.at(t) matches Some(c) ==> c.attempts
            <= MAX_TURN_START_RETRY_ATTEMPTS
        &&& forall|t1: Seq<char>, t2: Seq<char>|
            t1 != t2 && #[trigger] self.at(t1) is Some && #[trigger] self.at(t2) is Some ==> self.at(
                t1,
            )->0.thread_id@ != self.at(t2)->0.thread_id@
    }

    /// The record of turn `t`.
    pub open spec fn at(&self, t: Seq<char>) -> Option<TurnStartRetryContext> {
        self.table.at(t)
    }

    pub fn new() -> (r: RetryContexts)
        ensures
            r.wf(),
            forall|t: Seq<char>| #[trigger] r.at(t) is None,
    {
        let r = RetryContexts { table: Table::new() };
        proof {
            assert forall|t: Seq<char>| #[trigger] r.at(t) is None by {
                lemma_lookup_none(r.table.entries@, t);
            }
        }
        r
    }

    /// The number of records.
    pub fn len(&self) -> (r: usize)
        ensures
            r == self.table.entries@.len(),
    {
        self.table.len()
    }

    /// The record of `turn_id`.
    pub fn get_turn_start_retry_context(&self, turn_id: &str) -> (r: Option<&TurnStartRetryContext>)
        ensures
            match r {
                Some(c) => self.at(turn_id@) == Some(*c),
                None => self.at(turn_id@) is None,
            },
    {
        self.table.get(turn_id)
    }

    /// Drops the record of `turn_id`, if any.
    pub fn clear_turn_start_retry_context(&mut self, turn_id: &str)
        requires
            old(self).wf(),
        ensures
            final(self).wf(),
            final(self).at(turn_id@) is None,
            forall|q: Seq<char>| q != turn_id@ ==> #[trigger] final(self).at(q) == old(self).at(q),
            old(self).at(turn_id@) is Some ==> final(self).table.entries@.len()
                < old(self).table.entries@.len(),
    {
        let ghost before = self.table.entries@;
        proof {
            lemma_lookup_none(before, turn_id@);
        }
        let _ = self.table.remove(turn_id);
        proof {
            if has_key(before, turn_id@) {
                let i = choose|i: int|
                    0 <= i < before.len() && #[trigger] before[i].0@ == turn_id@
                        && self.table.entries@ == before.remove(i);
            }
            assert forall|t1: Seq<char>, t2: Seq<char>|
                t1 != t2 && #[trigger] self.at(t1) is Some && #[trigger] self.at(t2) is Some implies self.at(
                    t1,
                )->0.thread_id@ != self.at(t2)->0.thread_id@ by {
                assert(old(self).at(t1) is Some && old(self).at(t2) is Some);
            }
            assert forall|t: Seq<char>| #[trigger] self.at(t) is Some implies self.at(t)->0.attempts
                <= MAX_TURN_START_RETRY_ATTEMPTS by {
                assert(old(self).at(t) is Some);
            }
        }
    }

    /// The position of a record of thread `thread_id`, if any.
    fn first_record_of_thread(&self, thread_id: &str) -> (r: Option<usize>)
        ensures
            match r {
                Some(i) => i < self.table.entries@.len() && self.table.entries@[i as int].1.thread_id@
                    == thread_id@,
                None => forall|j: int|
                    0 <= j < self.table.entries@.len() ==> #[trigger] self.table.entries@[j].1.thread_id@
                        != thread_id@,
            },
    {
        let mut i: usize = 0;
        while i < self.table.entries.len()
            invariant
                i <= self.table.entries@.len(),
                forall|j: int| 0 <= j < i ==> #[trigger] self.table.entries@[j].1.thread_id@ != thread_id@,
            decreases self.table.entries.len() - i,
        {
            if crate::text::str_eq(self.table.entries[i].1.thread_id.as_str(), thread_id) {
                return Some(i);
            }
            i = i + 1;
        }
        None
    }

    /// Drops every record of thread `thread_id`.
    pub fn clear_turn_start_retry_contexts_for_thread(&mut self, thread_id: &str)
        requires
            old(self).wf(),
        ensures
            final(self).wf(),
            forall|q: Seq<char>| #[trigger] final(self).at(q) == (match old(self).at(q) {
                Some(c) => if c.thread_id@ == thread_id@ {
                    None
                } else {
                    Some(c)
                },
                None => None,
            }),
    {
        let ghost orig = *self;
        loop
            invariant
                self.wf(),
                orig.wf(),
                orig == *old(self),
                forall|q: Seq<char>| #[trigger] self.at(q) == (match orig.at(q) {
                    Some(c) => if c.thread_id@ == thread_id@ && self.at(q) is None {
                        None
                    } else {
                        Some(c)
                    },
                    None => None,
                }),
            decreases self.table.entries@.len(),
        {
            let found = self.first_record_of_thread(thread_id);
            match found {
                None => {
                    proof {
                        assert forall|q: Seq<char>| #[trigger] self.at(q) == (match orig.at(q) {
                            Some(c) => if c.thread_id@ == thread_id@ {
                                None
                            } else {
                                Some(c)
                            },
                            None => None,
                        }) by {
                            let es = self.table.entries@;
                            lemma_lookup_none(es, q);
                            if has_key(es, q) {
                                let j = choose|j: int| 0 <= j < es.len() && #[trigger] es[j].0@ == q;
                                lemma_lookup_unique(es, j);
                                assert(es[j].1.thread_id@ != thread_id@);
                            }
                        }
                    }
                    return;
                },
                Some(i) => {
                    let key = self.table.entries[i].0.clone();
                    proof {
                        lemma_lookup_unique(self.table.entries@, i as int);
                    }
                    let ghost mid = *self;
                    self.clear_turn_start_retry_context(key.as_str());
                    proof {
                        assert forall|q: Seq<char>| #[trigger] self.at(q) == (match orig.at(q) {
                            Some(c) => if c.thread_id@ == thread_id@ && self.at(q) is None {
                                None
                            } else {
                                Some(c)
                            },
                            None => None,
                        }) by {
                            if q != key@ {
                                assert(self.at(q) == mid.at(q));
                            } else {
                                assert(mid.at(q) == Some(mid.table.entries@[i as int].1));
                            }
                        }
                        assert(mid.at(key@) is Some);
                    }
                },
            }
        }
    }

    /// Records a started turn after a successful `turn/start`: keyed by the
    /// response's turn id, for the thread of the request params, with no
    /// retry spent. Any earlier record of that thread is dropped. Without a
    /// turn id or a thread id nothing changes.
    pub fn register_turn_start_retry_context(
        &mut self,
        workspace_id: &str,
        params: &Json,
        response: &Json,
    )
        requires
            old(self).wf(),
        ensures
            final(self).wf(),
            registered(*old(self), *final(self), workspace_id@, *params, *response),
    {
        let turn_id = match extract_turn_start_response_turn_id(response) {
            Some(t) => t,
            None => return ,
        };
        let thread_id = match extract_turn_start_request_thread_id(params) {
            Some(t) => t,
            None => return ,
        };
        self.clear_turn_start_retry_contexts_for_thread(thread_id.as_str());
        let ghost mid = *self;
        let ghost th = thread_id@;
        let record = TurnStartRetryContext {
            workspace_id: workspace_id.to_owned(),
            thread_id,
            params: params.deep_clone(),
            attempts: 0,
        };
        self.table.insert(turn_id, record);
        proof {
            assert forall|q: Seq<char>| q != turn_id@ implies #[trigger] self.at(q) == (match old(
                self,
            ).at(q) {
                Some(c) => if c.thread_id@ == th {
                    None
                } else {
                    Some(c)
                },
                None => None,
            }) by {
                assert(self.at(q) == mid.at(q));
            }
            assert forall|t: Seq<char>| #[trigger] self.at(t) is Some implies self.at(t)->0.attempts
                <= MAX_TURN_START_RETRY_ATTEMPTS by {
                if t != turn_id@ {
                    assert(mid.at(t) is Some);
                }
            }
            assert forall|t1: Seq<char>, t2: Seq<char>|
                t1 != t2 && #[trigger] self.at(t1) is Some && #[trigger] self.at(t2) is Some implies self.at(
                    t1,
                )->0.thread_id@ != self.at(t2)->0.thread_id@ by {
                if t1 != turn_id@ && t2 != turn_id@ {
                    assert(mid.at(t1) is Some && mid.at(t2) is Some);
                } else if t1 == turn_id@ {
                    assert(mid.at(t2) is Some);
                } else {
                    assert(mid.at(t1) is Some);
                }
            }
        }
    }

    /// Reserves the one automatic retry of `turn_id`: when its record exists
    /// and the budget is not spent, counts the attempt and returns a copy of
    /// the record; else changes nothing and returns `None`.
    pub fn reserve_turn_start_retry(&mut self, turn_id: &str) -> (r: Option<TurnStartRetryContext>)
        requires
            old(self).wf(),
        ensures
            final(self).wf(),
            match old(self).at(turn_id@) {
                Some(c) if c.attempts < MAX_TURN_START_RETRY_ATTEMPTS => {
                    &&& r matches Some(snap) && record_view(snap) == (
                        c.workspace_id@,
                        c.thread_id@,
                        model(c.params),
                        (c.attempts + 1) as u8,
                    )
                    &&& opt_record_view(final(self).at(turn_id@)) == Some(record_view(r->0))
                    &&& forall|q: Seq<char>|
                        q != turn_id@ ==> #[trigger] final(self).at(q) == old(self).at(q)
                },
                _ => r is None && *final(self) == *old(self),
            },
    {
        let (snapshot, stored) = match self.table.get(turn_id) {
            Some(c) => {
                if c.attempts >= MAX_TURN_START_RETRY_ATTEMPTS {
                    return None;
                }
                let snapshot = TurnStartRetryContext {
                    workspace_id: c.workspace_id.clone(),
                    thread_id: c.thread_id.clone(),
                    params: c.params.deep_clone(),
                    attempts: c.attempts + 1,
                };
                let stored = TurnStartRetryContext {
                    workspace_id: c.workspace_id.clone(),
                    thread_id: c.thread_id.clone(),
                    params: c.params.deep_clone(),
                    attempts: c.attempts + 1,
                };
                (snapshot, stored)
            },
            None => return None,
        };
        let ghost mid = *self;
        self.table.insert(turn_id.to_owned(), stored);
        proof {
            assert forall|t: Seq<char>| #[trigger] self.at(t) is Some implies self.at(t)->0.attempts
                <= MAX_TURN_START_RETRY_ATTEMPTS by {
                if t != turn_id@ {
                    assert(mid.at(t) is Some);
                }
            }
            assert forall|t1: Seq<char>, t2: Seq<char>|
                t1 != t2 && #[trigger] self.at(t1) is Some && #[trigger] self.at(t2) is Some implies self.at(
                    t1,
                )->0.thread_id@ != self.at(t2)->0.thread_id@ by {
                assert(mid.at(t1) is Some && mid.at(t2) is Some);
            }
        }
        Some(snapshot)
    }

    /// Drops every record.
    pub fn clear_all(&mut self)
        ensures
            final(self).wf(),
            forall|q: Seq<char>| #[trigger] final(self).at(q) is None,
    {
        self.table.clear();
        proof {
            assert forall|q: Seq<char>| #[trigger] self.at(q) is None by {
                lemma_lookup_none(self.table.entries@, q);
            }
        }
    }
}

} // verus!
