//! Reading routing keys out of inbound messages, and choosing the workspace
//! that a message is delivered to.
use vstd::prelude::*;
use crate::json::{
    Json, jget, oget, ostr, or_else, opt_view, deref_opt, get_opt, get_either, str_of,
};
use crate::path::{resolve_workspace_for_cwd, normalized_path, some_root_matches, is_best_root};
use crate::table::Table;
use crate::text::str_eq;

verus! {

/// The thread id held by a `params` or `result` container: `threadId`, else
/// `thread_id`, else `thread.id`.
pub open spec fn thread_id_in(c: Option<Json>) -> Option<Seq<char>> {
    or_else(
        ostr(or_else(oget(c, "threadId"@), oget(c, "thread_id"@))),
        ostr(oget(oget(c, "thread"@), "id"@)),
    )
}

/// The thread id of a message, read from `params`, else from `result`.
pub open spec fn thread_id_of(v: Json) -> Option<Seq<char>> {
    or_else(thread_id_in(jget(v, "params"@)), thread_id_in(jget(v, "result"@)))
}

/// The turn id held by a container: `turnId`, else `turn_id`, else `turn.id`.
pub open spec fn turn_id_in(c: Option<Json>) -> Option<Seq<char>> {
    or_else(
        ostr(or_else(oget(c, "turnId"@), oget(c, "turn_id"@))),
        ostr(oget(oget(c, "turn"@), "id"@)),
    )
}

/// The turn id of a message, read from `params`, else from `result`.
pub open spec fn turn_id_of(v: Json) -> Option<Seq<char>> {
    or_else(turn_id_in(jget(v, "params"@)), turn_id_in(jget(v, "result"@)))
}

/// The parent thread named by a thread's `source.thread_spawn` (or `threadSpawn`).
pub open spec fn parent_in_source(source: Option<Json>) -> Option<Seq<char>> {
    let spawn = or_else(oget(source, "thread_spawn"@), oget(source, "threadSpawn"@));
    ostr(or_else(oget(spawn, "parent_thread_id"@), oget(spawn, "parentThreadId"@)))
}

/// The parent thread of a started thread, from `params.thread.source`, else
/// from `result.thread.source`.
pub open spec fn parent_thread_id_of(v: Json) -> Option<Seq<char>> {
    or_else(
        parent_in_source(oget(oget(jget(v, "params"@), "thread"@), "source"@)),
        parent_in_source(oget(oget(jget(v, "result"@), "thread"@), "source"@)),
    )
}

/// The working directory held by a container: `thread.cwd`, else `cwd`.
pub open spec fn cwd_in(c: Option<Json>) -> Option<Seq<char>> {
    ostr(or_else(oget(oget(c, "thread"@), "cwd"@), oget(c, "cwd"@)))
}

/// The working directory of a message, from `params`, else from `result`.
pub open spec fn cwd_of(v: Json) -> Option<Seq<char>> {
    or_else(cwd_in(jget(v, "params"@)), cwd_in(jget(v, "result"@)))
}

/// The turn id of a `turn/start` response: `result.turn.id`, else
/// `result.turnId`, else `result.turn_id`.
pub open spec fn response_turn_id_of(v: Json) -> Option<Seq<char>> {
    let r = jget(v, "result"@);
    ostr(or_else(or_else(oget(oget(r, "turn"@), "id"@), oget(r, "turnId"@)), oget(r, "turn_id"@)))
}

/// The thread id of `turn/start` request params: `threadId`, else `thread_id`.
pub open spec fn request_thread_id_of(p: Json) -> Option<Seq<char>> {
    ostr(or_else(jget(p, "threadId"@), jget(p, "thread_id"@)))
}

/// `r` is what resolving `cwd` against `roots` may give.
pub open spec fn resolves_cwd(roots: Table<String>, cwd: Seq<char>, r: Option<Seq<char>>) -> bool {
    resolves_form(roots, normalized_path(cwd), r)
}

/// `r` is what resolving a directory whose matching form is `n` may give.
pub open spec fn resolves_form(roots: Table<String>, n: Seq<char>, r: Option<Seq<char>>) -> bool {
    if n.len() == 0 {
        r is None
    } else {
        match r {
            None => !some_root_matches(roots.entries@, n),
            Some(w) => is_best_root(roots.entries@, n, w),
        }
    }
}

/// The thread id held by a container such as request params.
pub fn thread_id_from(c: Option<&Json>) -> (r: Option<String>)
    ensures
        opt_view(r) == thread_id_in(deref_opt(c)),
{
    match str_of(get_either(c, "threadId", "thread_id")) {
        Some(s) => Some(s),
        None => str_of(get_opt(get_opt(c, "thread"), "id")),
    }
}

/// The thread id that a message carries, in either spelling, or nested as `thread.id`.
pub fn extract_thread_id(value: &Json) -> (r: Option<String>)
    ensures
        opt_view(r) == thread_id_of(*value),
{
    match thread_id_from(value.get("params")) {
        Some(s) => Some(s),
        None => thread_id_from(value.get("result")),
    }
}

fn turn_id_from(c: Option<&Json>) -> (r: Option<String>)
    ensures
        opt_view(r) == turn_id_in(deref_opt(c)),
{
    match str_of(get_either(c, "turnId", "turn_id")) {
        Some(s) => Some(s),
        None => str_of(get_opt(get_opt(c, "turn"), "id")),
    }
}

/// The turn id that a message carries, in either spelling, or nested as `turn.id`.
pub fn extract_turn_id(value: &Json) -> (r: Option<String>)
    ensures
        opt_view(r) == turn_id_of(*value),
{
    match turn_id_from(value.get("params")) {
        Some(s) => Some(s),
        None => turn_id_from(value.get("result")),
    }
}

fn parent_from_source(source: Option<&Json>) -> (r: Option<String>)
    ensures
        opt_view(r) == parent_in_source(deref_opt(source)),
{
    let spawn = get_either(source, "thread_spawn", "threadSpawn");
    str_of(get_either(spawn, "parent_thread_id", "parentThreadId"))
}

/// The parent thread id of a spawned thread, in either spelling.
pub fn extract_thread_spawn_parent_thread_id(value: &Json) -> (r: Option<String>)
    ensures
        opt_view(r) == parent_thread_id_of(*value),
{
    match parent_from_source(get_opt(get_opt(value.get("params"), "thread"), "source")) {
        Some(s) => Some(s),
        None => parent_from_source(get_opt(get_opt(value.get("result"), "thread"), "source")),
    }
}

fn cwd_from(c: Option<&Json>) -> (r: Option<String>)
    ensures
        opt_view(r) == cwd_in(deref_opt(c)),
{
    match get_opt(get_opt(c, "thread"), "cwd") {
        Some(v) => str_of(Some(v)),
        None => str_of(get_opt(c, "cwd")),
    }
}

/// The working directory of a thread that a message announces.
pub fn extract_thread_cwd(value: &Json) -> (r: Option<String>)
    ensures
        opt_view(r) == cwd_of(*value),
{
    match cwd_from(value.get("params")) {
        Some(s) => Some(s),
        None => cwd_from(value.get("result")),
    }
}

/// The workspace of a spawned thread's parent, when the parent is mapped.
pub fn resolve_spawned_thread_workspace(
    child_thread_id: &str,
    value: &Json,
    thread_workspace: &Table<String>,
) -> (r: Option<String>)
    ensures
        opt_view(r) == (if child_thread_id@.len() == 0 {
            None
        } else {
            match parent_thread_id_of(*value) {
                Some(p) => opt_view(thread_workspace.at(p)),
                None => None,
            }
        }),
{
    if child_thread_id.is_empty() {
        return None;
    }
    match extract_thread_spawn_parent_thread_id(value) {
        Some(parent) => match thread_workspace.get(parent.as_str()) {
            Some(w) => Some(w.clone()),
            None => None,
        },
        None => None,
    }
}

/// The workspace of a newly started thread: its parent's, else the one whose
/// root best matches its working directory.
pub fn resolve_started_thread_workspace(
    child_thread_id: &str,
    value: &Json,
    thread_workspace: &Table<String>,
    workspace_roots: &Table<String>,
) -> (r: Option<String>)
    ensures
        ({
            let spawned = if child_thread_id@.len() == 0 {
                None
            } else {
                match parent_thread_id_of(*value) {
                    Some(p) => opt_view(thread_workspace.at(p)),
                    None => None,
                }
            };
            match spawned {
                Some(w) => opt_view(r) == Some(w),
                None => match cwd_of(*value) {
                    None => r is None,
                    Some(cwd) => resolves_cwd(*workspace_roots, cwd, opt_view(r)),
                },
            }
        }),
{
    match resolve_spawned_thread_workspace(child_thread_id, value, thread_workspace) {
        Some(w) => Some(w),
        None => match extract_thread_cwd(value) {
            Some(cwd) => resolve_workspace_for_cwd(cwd.as_str(), workspace_roots),
            None => None,
        },
    }
}

/// The turn id in a `turn/start` response.
pub fn extract_turn_start_response_turn_id(value: &Json) -> (r: Option<String>)
    ensures
        opt_view(r) == response_turn_id_of(*value),
{
    let result = value.get("result");
    let found = match get_opt(get_opt(result, "turn"), "id") {
        Some(v) => Some(v),
        None => get_either(result, "turnId", "turn_id"),
    };
    str_of(found)
}

/// The thread id in the params of a `turn/start` request.
pub fn extract_turn_start_request_thread_id(params: &Json) -> (r: Option<String>)
    ensures
        opt_view(r) == request_thread_id_of(*params),
{
    str_of(get_either(Some(params), "threadId", "thread_id"))
}

/// The methods that concern every workspace of a session.
pub open spec fn is_global_method(m: Seq<char>) -> bool {
    m == "account/updated"@ || m == "account/rateLimits/updated"@ || m
        == "account/login/completed"@
}

/// Whether `method` is a session-wide account notification.
pub fn is_global_workspace_notification(method: &str) -> (r: bool)
    ensures
        r == is_global_method(method@),
{
    str_eq(method, "account/updated") || str_eq(method, "account/rateLimits/updated") || str_eq(
        method,
        "account/login/completed",
    )
}

/// Whether a notification goes to every attached workspace: a global method
/// with neither a thread nor a requesting workspace to tie it to one.
pub fn should_broadcast_global_workspace_notification(
    method_name: Option<&str>,
    thread_id: Option<&String>,
    request_workspace: Option<&str>,
) -> (r: bool)
    ensures
        r == (match method_name {
            Some(m) => is_global_method(m@),
            None => false,
        } && thread_id is None && request_workspace is None),
{
    let global = match method_name {
        Some(m) => is_global_workspace_notification(m),
        None => false,
    };
    global && thread_id.is_none() && request_workspace.is_none()
}

/// Where a message goes, by the first rule that applies.
pub open spec fn routed_workspace(
    thread_id: Option<Seq<char>>,
    mapped_thread_workspace: Option<Seq<char>>,
    request_workspace: Option<Seq<char>>,
    fallback: Seq<char>,
    count: nat,
) -> Option<Seq<char>> {
    if thread_id is Some {
        if mapped_thread_workspace is Some {
            mapped_thread_workspace
        } else if request_workspace is Some {
            request_workspace
        } else if count <= 1 {
            Some(fallback)
        } else {
            None
        }
    } else {
        match request_workspace {
            Some(w) => Some(w),
            None => Some(fallback),
        }
    }
}

/// A message of a thread that neither its own mapping nor a request places
/// goes to the owner of a single-workspace session, and nowhere when the
/// session has two workspaces or more.
pub proof fn lemma_unplaced_thread_destination(t: Seq<char>, owner: Seq<char>, count: nat)
    ensures
        routed_workspace(Some(t), None, None, owner, count) == if count >= 2 {
            None
        } else {
            Some(owner)
        },
{
}

pub open spec fn str_opt_view(o: Option<&str>) -> Option<Seq<char>> {
    match o {
        Some(s) => Some(s@),
        None => None,
    }
}

/// The workspace that a message is delivered to; `None` when a thread's
/// message cannot be placed among several workspaces.
pub fn resolve_routed_workspace_id(
    thread_id: Option<&str>,
    mapped_thread_workspace: Option<&str>,
    request_workspace: Option<&str>,
    fallback_workspace_id: &str,
    registered_workspace_count: usize,
) -> (r: Option<String>)
    ensures
        opt_view(r) == routed_workspace(
            str_opt_view(thread_id),
            str_opt_view(mapped_thread_workspace),
            str_opt_view(request_workspace),
            fallback_workspace_id@,
            registered_workspace_count as nat,
        ),
{
    if thread_id.is_some() {
        if let Some(w) = mapped_thread_workspace {
            return Some(w.to_owned());
        }
        if let Some(w) = request_workspace {
            return Some(w.to_owned());
        }
        if registered_workspace_count <= 1 {
            return Some(fallback_workspace_id.to_owned());
        }
        return None;
    }
    match request_workspace {
        Some(w) => Some(w.to_owned()),
        None => Some(fallback_workspace_id.to_owned()),
    }
}

/// A thread named by a `thread/list` response, with its working directory.
#[derive(Debug)]
pub struct ThreadListEntry {
    pub thread_id: String,
    pub cwd: Option<String>,
}

/// What a listing entry holds: its thread id and working directory.
pub open spec fn entry_view(e: ThreadListEntry) -> (Seq<char>, Option<Seq<char>>) {
    (e.thread_id@, opt_view(e.cwd))
}

pub open spec fn entries_view(s: Seq<ThreadListEntry>) -> Seq<(Seq<char>, Option<Seq<char>>)> {
    Seq::new(s.len(), |i: int| entry_view(s[i]))
}

/// The entry that an object of a listing stands for, if it names a thread:
/// id from `threadId`, `thread_id`, `id` or `thread.id`; cwd from `cwd` or `thread.cwd`.
pub open spec fn own_entry(o: Json) -> Option<(Seq<char>, Option<Seq<char>>)> {
    let cwd = or_else(ostr(jget(o, "cwd"@)), ostr(oget(jget(o, "thread"@), "cwd"@)));
    let tid = or_else(
        ostr(or_else(or_else(jget(o, "threadId"@), jget(o, "thread_id"@)), jget(o, "id"@))),
        ostr(oget(jget(o, "thread"@), "id"@)),
    );
    match tid {
        Some(t) => Some((t, cwd)),
        None => None,
    }
}

pub open spec fn opt_seq<T>(o: Option<T>) -> Seq<T> {
    match o {
        Some(x) => seq![x],
        None => Seq::empty(),
    }
}

/// The entries of a listing, depth first: an array's items in order; an
/// object's own entry, then those under `threads`, `items`, `results`, `data`.
pub open spec fn listing_entries(j: Json) -> Seq<(Seq<char>, Option<Seq<char>>)>
    decreases j, 2int,
{
    match j {
        Json::Array(items) => listing_entries_all(items@),
        Json::Object(fields) => opt_seq(own_entry(j)) + listing_under(fields@, "threads"@)
            + listing_under(fields@, "items"@) + listing_under(fields@, "results"@)
            + listing_under(fields@, "data"@),
        _ => Seq::empty(),
    }
}

/// The entries of the items of `s`, in order.
pub open spec fn listing_entries_all(s: Seq<Json>) -> Seq<(Seq<char>, Option<Seq<char>>)>
    decreases s, 1int,
{
    if s.len() == 0 {
        Seq::empty()
    } else {
        listing_entries_all(s.subrange(0, s.len() - 1)) + listing_entries(s[s.len() - 1])
    }
}

/// The entries of the array under key `k` among `fields`, if that member is an array.
pub open spec fn listing_under(fields: Seq<(String, Json)>, k: Seq<char>) -> Seq<
    (Seq<char>, Option<Seq<char>>),
>
    decreases fields, 0int,
{
    if fields.len() == 0 {
        Seq::empty()
    } else if fields[0].0@ == k {
        match fields[0].1 {
            Json::Array(items) => listing_entries_all(items@),
            _ => Seq::empty(),
        }
    } else {
        listing_under(fields.subrange(1, fields.len() as int), k)
    }
}

/// The entries of a `thread/list` response: those under its `result`.
pub open spec fn thread_list_entries(v: Json) -> Seq<(Seq<char>, Option<Seq<char>>)> {
    match jget(v, "result"@) {
        Some(r) => listing_entries(r),
        None => Seq::empty(),
    }
}

fn own_entry_exec(o: &Json) -> (r: Option<ThreadListEntry>)
    ensures
        match r {
            Some(e) => own_entry(*o) == Some(entry_view(e)),
            None => own_entry(*o) is None,
        },
{
    let cwd = match str_of(o.get("cwd")) {
        Some(c) => Some(c),
        None => str_of(get_opt(o.get("thread"), "cwd")),
    };
    let id_value = match get_either(Some(o), "threadId", "thread_id") {
        Some(v) => Some(v),
        None => o.get("id"),
    };
    let tid = match str_of(id_value) {
        Some(t) => Some(t),
        None => str_of(get_opt(o.get("thread"), "id")),
    };
    match tid {
        Some(t) => Some(ThreadListEntry { thread_id: t, cwd }),
        None => None,
    }
}

fn push_entries_of_items(items: &Vec<Json>, out: &mut Vec<ThreadListEntry>)
    ensures
        entries_view(final(out)@) == entries_view(old(out)@) + listing_entries_all(items@),
    decreases items@, 0int,
{
    let ghost start = entries_view(out@);
    let mut i: usize = 0;
    assert(items@.subrange(0, 0) =~= Seq::<Json>::empty());
    assert(start + Seq::empty() =~= start);
    while i < items.len()
        invariant
            i <= items@.len(),
            entries_view(out@) == start + listing_entries_all(items@.subrange(0, i as int)),
        decreases items.len() - i,
    {
        let ghost before = entries_view(out@);
        assert(decreases_to!(items@ => items@[i as int]));
        collect_entries(&items[i], out);
        proof {
            let sub = items@.subrange(0, i + 1);
            assert(sub.subrange(0, sub.len() - 1) =~= items@.subrange(0, i as int));
            assert(sub[sub.len() - 1] == items@[i as int]);
            assert(entries_view(out@) =~= start + listing_entries_all(sub));
        }
        i = i + 1;
    }
    assert(items@.subrange(0, items@.len() as int) =~= items@);
}

fn push_entries_under(fields: &Vec<(String, Json)>, key: &str, out: &mut Vec<ThreadListEntry>)
    ensures
        entries_view(final(out)@) == entries_view(old(out)@) + listing_under(fields@, key@),
    decreases fields@, 1int,
{
    let ghost start = entries_view(out@);
    let mut i: usize = 0;
    assert(fields@.subrange(0, fields@.len() as int) =~= fields@);
    while i < fields.len()
        invariant
            i <= fields@.len(),
            entries_view(out@) == start,
            start == entries_view(old(out)@),
            listing_under(fields@, key@) == listing_under(
                fields@.subrange(i as int, fields@.len() as int),
                key@,
            ),
        decreases fields.len() - i,
    {
        let ghost rest = fields@.subrange(i as int, fields@.len() as int);
        assert(rest.subrange(1, rest.len() as int) =~= fields@.subrange(i + 1, fields@.len() as int));
        assert(rest[0] == fields@[i as int]);
        if str_eq(fields[i].0.as_str(), key) {
            match &fields[i].1 {
                Json::Array(items) => {
                    assert(decreases_to!(fields@ => fields@[i as int]));
                    assert(listing_under(rest, key@) == listing_entries_all(items@));
                    push_entries_of_items(items, out);
                    assert(entries_view(out@) == start + listing_under(fields@, key@));
                },
                _ => {
                    assert(listing_under(rest, key@) =~= Seq::empty());
                    assert(start + Seq::empty() =~= start);
                    assert(entries_view(out@) == start + listing_under(fields@, key@));
                },
            }
            return;
        }
        i = i + 1;
    }
    assert(start + Seq::empty() =~= start);
}

fn collect_entries(input: &Json, out: &mut Vec<ThreadListEntry>)
    ensures
        entries_view(final(out)@) == entries_view(old(out)@) + listing_entries(*input),
    decreases *input, 2int,
{
    match input {
        Json::Array(items) => {
            push_entries_of_items(items, out);
        },
        Json::Object(fields) => {
            let ghost start = entries_view(out@);
            match own_entry_exec(input) {
                Some(e) => {
                    out.push(e);
                    assert(entries_view(out@) =~= start + opt_seq(own_entry(*input)));
                },
                None => {
                    assert(entries_view(out@) =~= start + opt_seq(own_entry(*input)));
                },
            }
            push_entries_under(fields, "threads", out);
            push_entries_under(fields, "items", out);
            push_entries_under(fields, "results", out);
            push_entries_under(fields, "data", out);
            assert(entries_view(out@) =~= start + listing_entries(*input));
        },
        _ => {
            assert(entries_view(out@) =~= entries_view(out@) + listing_entries(*input));
        },
    }
}

/// The threads named in a `thread/list` response, depth first through
/// nested `threads`, `items`, `results` and `data` arrays.
pub fn extract_thread_entries_from_thread_list_result(value: &Json) -> (r: Vec<ThreadListEntry>)
    ensures
        entries_view(r@) == thread_list_entries(*value),
{
    let mut out: Vec<ThreadListEntry> = Vec::new();
    match value.get("result") {
        Some(result) => {
            collect_entries(result, &mut out);
            assert(entries_view(Seq::<ThreadListEntry>::empty()) =~= Seq::empty());
            assert(Seq::<(Seq<char>, Option<Seq<char>>)>::empty() + listing_entries(*result)
                =~= listing_entries(*result));
        },
        None => {
            assert(entries_view(out@) =~= Seq::empty());
        },
    }
    out
}

} // verus!
