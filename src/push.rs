//! The push broker: client presence, device registrations, previews of the
//! last agent message, de-duplication, and what a delivery carries.
use vstd::prelude::*;
use crate::json::{
    Json, jget, oget, ostr, obool, oobject, or_else, opt_view, deref_opt, get_opt, get_either,
};
use crate::retry::non_empty_trimmed;
use crate::table::{Table, has_key, lemma_lookup_none, lemma_lookup_unique};
use crate::text::{
    trim, trimmed, to_ascii_lowercase, ascii_lower, str_eq, concat, char_count, substring,
};

verus! {

/// How long a presence heartbeat counts, in milliseconds.
pub const HEARTBEAT_STALE_MS: i64 = 45_000;

/// How long a sent notification suppresses the same one, in milliseconds.
pub const DEDUPE_WINDOW_MS: i64 = 5_000;

/// The most characters a preview keeps.
pub const MAX_PREVIEW_CHARS: usize = 200;

/// The preview of a completed turn without a captured agent message.
pub open spec fn default_completed_preview() -> Seq<char> {
    "Your agent finished a task."@
}

/// The preview of a failed turn without an error message.
pub open spec fn default_error_preview() -> Seq<char> {
    "Agent run failed."@
}

/// A preview: the trimmed text, cut to its first 200 characters with `…`
/// appended when it was longer.
pub open spec fn clamped(text: Seq<char>) -> Seq<char> {
    let t = trimmed(text);
    if t.len() <= MAX_PREVIEW_CHARS {
        t
    } else {
        t.subrange(0, MAX_PREVIEW_CHARS as int).push('…')
    }
}

/// The preview of `text`: trimmed, and cut to 200 characters plus `…` when longer.
pub fn clamp_preview(text: String) -> (r: String)
    ensures
        r@ == clamped(text@),
{
    let t = trim(text.as_str());
    let n = char_count(t.as_str());
    if n <= MAX_PREVIEW_CHARS {
        t
    } else {
        let head = substring(t.as_str(), 0, MAX_PREVIEW_CHARS);
        let r = concat(head.as_str(), "…");
        proof {
            reveal_strlit("…");
            assert(r@ =~= t@.subrange(0, MAX_PREVIEW_CHARS as int).push('…'));
        }
        r
    }
}

/// A token as it may be shown: its first and last four characters around
/// `…`, or `***` when it has eight characters or fewer.
pub open spec fn token_preview(token: Seq<char>) -> Seq<char> {
    let t = trimmed(token);
    if t.len() <= 8 {
        "***"@
    } else {
        t.subrange(0, 4) + "…"@ + t.subrange(t.len() - 4, t.len() as int)
    }
}

/// A token cut down for display.
pub fn redact_token_preview(token: &str) -> (r: String)
    ensures
        r@ == token_preview(token@),
{
    let t = trim(token);
    let n = char_count(t.as_str());
    if n <= 8 {
        return "***".to_owned();
    }
    let prefix = substring(t.as_str(), 0, 4);
    let suffix = substring(t.as_str(), n - 4, n);
    let left = concat(prefix.as_str(), "…");
    concat(left.as_str(), suffix.as_str())
}

/// An optional text, trimmed; blank is none.
pub fn normalize_optional_non_empty(value: Option<String>) -> (r: Option<String>)
    ensures
        opt_view(r) == non_empty_trimmed(opt_view(value)),
{
    match value {
        Some(v) => {
            let t = trim(v.as_str());
            if t.as_str().is_empty() {
                None
            } else {
                Some(t)
            }
        },
        None => None,
    }
}

/// The kind of a client: `mobile` when it says so in any case and spacing,
/// else `desktop`.
pub open spec fn client_kind_of(v: Seq<char>) -> Seq<char> {
    if ascii_lower(trimmed(v)) == "mobile"@ {
        "mobile"@
    } else {
        "desktop"@
    }
}

pub fn normalize_client_kind(value: String) -> (r: String)
    ensures
        r@ == client_kind_of(value@),
{
    let t = trim(value.as_str());
    let normalized = to_ascii_lowercase(t.as_str());
    if str_eq(normalized.as_str(), "mobile") {
        "mobile".to_owned()
    } else {
        "desktop".to_owned()
    }
}

/// The client kind of a heartbeat that names none.
pub fn default_client_kind() -> (r: String)
    ensures
        r@ == "desktop"@,
{
    "desktop".to_owned()
}

/// The default of flags that are on unless a heartbeat or record says otherwise.
pub fn default_true() -> (r: bool)
    ensures
        r,
{
    true
}

/// Why a device platform is refused.
#[derive(Debug)]
pub enum PlatformError {
    Missing,
    Unsupported,
}

impl PlatformError {
    /// The message shown for the error.
    pub fn message(&self) -> (r: String)
        ensures
            r@ == match self {
                PlatformError::Missing => "missing `platform`"@,
                PlatformError::Unsupported => "`platform` must be `android` or `ios`"@,
            },
    {
        match self {
            PlatformError::Missing => "missing `platform`".to_owned(),
            PlatformError::Unsupported => "`platform` must be `android` or `ios`".to_owned(),
        }
    }
}

/// A device platform in normal form: trimmed and lower-cased; it must be
/// `android` or `ios`.
pub fn normalize_platform(value: String) -> (r: Result<String, PlatformError>)
    ensures
        ({
            let n = ascii_lower(trimmed(value@));
            match r {
                Ok(p) => p@ == n && (n == "android"@ || n == "ios"@),
                Err(PlatformError::Missing) => n.len() == 0,
                Err(PlatformError::Unsupported) => n.len() > 0 && n != "android"@ && n != "ios"@,
            }
        }),
{
    let t = trim(value.as_str());
    let normalized = to_ascii_lowercase(t.as_str());
    if normalized.as_str().is_empty() {
        return Err(PlatformError::Missing);
    }
    if !str_eq(normalized.as_str(), "android") && !str_eq(normalized.as_str(), "ios") {
        return Err(PlatformError::Unsupported);
    }
    Ok(normalized)
}

/// The key of a thread's last agent message: `workspace:thread`.
pub fn make_thread_key(workspace_id: &str, thread_id: &str) -> (r: String)
    ensures
        r@ == workspace_id@ + ":"@ + thread_id@,
{
    let left = concat(workspace_id, ":");
    concat(left.as_str(), thread_id)
}

/// A heartbeat of a client.
#[derive(Debug)]
pub struct PresenceHeartbeatInput {
    pub client_id: String,
    pub client_kind: String,
    pub platform: Option<String>,
    pub is_supported: bool,
    pub is_focused: bool,
    pub is_afk: bool,
    pub active_workspace_ids: Vec<String>,
}

/// A request to register a device for pushes.
#[derive(Debug)]
pub struct PushDeviceRegistrationInput {
    pub device_id: String,
    pub platform: String,
    pub token: String,
    pub label: Option<String>,
}

/// A change of the relay settings; `None` leaves a setting as it is.
#[derive(Debug)]
pub struct PushNotificationConfigPatch {
    pub relay_url: Option<Option<String>>,
    pub relay_auth_token: Option<Option<String>>,
}

/// A registered device.
#[derive(Debug)]
pub struct PushDeviceRegistration {
    pub device_id: String,
    pub platform: String,
    pub token: String,
    pub label: Option<String>,
    pub enabled: bool,
    pub last_seen_at_ms: Option<i64>,
}

impl PushDeviceRegistration {
    /// A copy of this registration.
    pub fn copy(&self) -> (r: PushDeviceRegistration)
        ensures
            r == *self,
    {
        PushDeviceRegistration {
            device_id: self.device_id.clone(),
            platform: self.platform.clone(),
            token: self.token.clone(),
            label: match &self.label {
                Some(l) => Some(l.clone()),
                None => None,
            },
            enabled: self.enabled,
            last_seen_at_ms: self.last_seen_at_ms,
        }
    }
}

/// What the state file holds.
#[derive(Debug)]
pub struct PersistedPushState {
    pub relay_url: Option<String>,
    pub relay_auth_token: Option<String>,
    pub devices: Vec<PushDeviceRegistration>,
}

/// What a client last reported of itself.
#[derive(Debug)]
pub struct PresenceRecord {
    pub client_id: String,
    pub client_kind: String,
    pub platform: Option<String>,
    pub is_supported: bool,
    pub is_focused: bool,
    pub is_afk: bool,
    pub active_workspace_ids: Vec<String>,
    pub last_seen_at_ms: i64,
}

/// The kinds of push.
#[derive(Debug, PartialEq, Eq, Structural, Clone, Copy)]
pub enum PushKind {
    TurnCompleted,
    TurnError,
}

pub open spec fn kind_name(k: PushKind) -> Seq<char> {
    match k {
        PushKind::TurnCompleted => "turn.completed"@,
        PushKind::TurnError => "turn.error"@,
    }
}

impl PushKind {
    /// The name of the kind on the wire.
    pub fn as_str(&self) -> (r: &'static str)
        ensures
            r@ == kind_name(*self),
    {
        match self {
            PushKind::TurnCompleted => "turn.completed",
            PushKind::TurnError => "turn.error",
        }
    }
}

/// A push that an event calls for.
#[derive(Debug)]
pub struct PushEvent {
    pub kind: PushKind,
    pub workspace_id: String,
    pub workspace_name: Option<String>,
    pub thread_id: String,
    pub turn_id: Option<String>,
    pub preview: String,
}

/// The configuration as it may be shown.
#[derive(Debug)]
pub struct ConfigSnapshot {
    pub relay_url: Option<String>,
    pub has_relay_auth_token: bool,
    pub registered_device_count: usize,
}

/// A push ready to be sent to the devices.
#[derive(Debug)]
pub struct PreparedDelivery {
    pub relay_url: Option<String>,
    pub relay_auth_token: Option<String>,
    pub event: PushEvent,
    pub title: String,
    pub body: String,
    pub devices: Vec<PushDeviceRegistration>,
    pub timestamp_ms: i64,
}

/// Whether a presence record was seen within the heartbeat window at `now`.
pub open spec fn presence_fresh(p: PresenceRecord, now: i64) -> bool {
    now - p.last_seen_at_ms <= HEARTBEAT_STALE_MS
}

/// Whether a dedupe stamp is still within its window at `now`.
pub open spec fn stamp_fresh(t: i64, now: i64) -> bool {
    now - t <= DEDUPE_WINDOW_MS
}

/// Whether a presence record holds back pushes for `workspace_id`: a desktop
/// client that supports them, is not away, and has no workspace filter or
/// lists the workspace.
pub open spec fn holds_back(p: PresenceRecord, workspace_id: Seq<char>) -> bool {
    p.client_kind@ == "desktop"@ && p.is_supported && !p.is_afk && (p.active_workspace_ids@.len()
        == 0 || exists|i: int|
        0 <= i < p.active_workspace_ids@.len() && #[trigger] p.active_workspace_ids@[i]@
            == workspace_id)
}

/// The dedupe key of an event: `kind:workspace:thread:turn`, with `-` for no turn.
pub open spec fn dedupe_key_of(e: PushEvent) -> Seq<char> {
    dedupe_key(e.kind, e.workspace_id@, e.thread_id@, opt_view(e.turn_id))
}

/// The dedupe key of a push of `kind` for a workspace, thread and turn.
pub open spec fn dedupe_key(kind: PushKind, w: Seq<char>, t: Seq<char>, turn: Option<Seq<char>>) -> Seq<char> {
    kind_name(kind) + ":"@ + w + ":"@ + t + ":"@ + match turn {
        Some(u) => u,
        None => "-"@,
    }
}

/// Whether a push of `kind` for workspace `w`, thread `t` and turn `turn` is
/// due at `now` in state `s`: no fresh desktop presence holds it back, some
/// device is enabled, and its key was not sent within the dedupe window.
pub open spec fn push_due(s: PushBrokerState, kind: PushKind, w: Seq<char>, t: Seq<char>, turn: Option<Seq<char>>, now: i64) -> bool {
    !held_back(s, w, now) && enabled_devices(s.devices.entries@).len() > 0 && dedupe_allows(
        s.dedupe_sent_at.at(dedupe_key(kind, w, t, turn)),
        now,
    )
}

/// The title of a push.
pub open spec fn title_of(e: PushEvent) -> Seq<char> {
    let base = match e.kind {
        PushKind::TurnError => "Agent Error"@,
        PushKind::TurnCompleted => "Agent Complete"@,
    };
    match e.workspace_name {
        Some(n) => base + " — "@ + n@,
        None => base,
    }
}

/// The key of the dedupe map for `event`.
pub fn make_dedupe_key(event: &PushEvent) -> (r: String)
    ensures
        r@ == dedupe_key_of(*event),
{
    let turn: String = match &event.turn_id {
        Some(t) => t.clone(),
        None => "-".to_owned(),
    };
    let a = concat(event.kind.as_str(), ":");
    let b = concat(a.as_str(), event.workspace_id.as_str());
    let c = concat(b.as_str(), ":");
    let d = concat(c.as_str(), event.thread_id.as_str());
    let e = concat(d.as_str(), ":");
    concat(e.as_str(), turn.as_str())
}

/// The broker's state.
pub struct PushBrokerState {
    pub relay_url: Option<String>,
    pub relay_auth_token: Option<String>,
    pub devices: Table<PushDeviceRegistration>,
    pub presence_by_client: Table<PresenceRecord>,
    pub last_message_by_thread: Table<String>,
    pub dedupe_sent_at: Table<i64>,
}

/// What the state file records of a state.
pub open spec fn persisted_view(s: PushBrokerState) -> (Option<Seq<char>>, Option<Seq<char>>, Seq<
    PushDeviceRegistration,
>) {
    (opt_view(s.relay_url), opt_view(s.relay_auth_token), Seq::new(
        s.devices.entries@.len(),
        |i: int| s.devices.entries@[i].1,
    ))
}

fn fresh_presence(p: &PresenceRecord, now: i64) -> (r: bool)
    ensures
        r == presence_fresh(*p, now),
{
    (now as i128) - (p.last_seen_at_ms as i128) <= HEARTBEAT_STALE_MS as i128
}

fn fresh_stamp(t: i64, now: i64) -> (r: bool)
    ensures
        r == stamp_fresh(t, now),
{
    (now as i128) - (t as i128) <= DEDUPE_WINDOW_MS as i128
}

/// Drops presence records older than the heartbeat window and dedupe stamps
/// older than the dedupe window, as of `now`.
pub fn prune_stale_entries(state: &mut PushBrokerState, now_ms: i64)
    requires
        old(state).wf(),
    ensures
        final(state).wf(),
        final(state).fresh_at(now_ms),
        forall|q: Seq<char>| #[trigger] final(state).presence_by_client.at(q) == (match old(state).presence_by_client.at(q) {
            Some(p) => if presence_fresh(p, now_ms) { Some(p) } else { None },
            None => None,
        }),
        forall|q: Seq<char>| #[trigger] final(state).dedupe_sent_at.at(q) == (match old(state).dedupe_sent_at.at(q) {
            Some(t) => if stamp_fresh(t, now_ms) { Some(t) } else { None },
            None => None,
        }),
        final(state).relay_url == old(state).relay_url,
        final(state).relay_auth_token == old(state).relay_auth_token,
        final(state).devices == old(state).devices,
        final(state).last_message_by_thread == old(state).last_message_by_thread,
{
    let ghost orig = *state;
    let mut keep: Vec<bool> = Vec::new();
    let mut i: usize = 0;
    while i < state.presence_by_client.entries.len()
        invariant
            i <= state.presence_by_client.entries@.len(),
            keep@.len() == i,
            forall|k: int| 0 <= k < i ==> #[trigger] keep@[k] == presence_fresh(
                state.presence_by_client.entries@[k].1,
                now_ms,
            ),
        decreases state.presence_by_client.entries.len() - i,
    {
        keep.push(fresh_presence(&state.presence_by_client.entries[i].1, now_ms));
        i = i + 1;
    }
    state.presence_by_client.retain_where(&keep);
    let mut keep2: Vec<bool> = Vec::new();
    let mut i: usize = 0;
    while i < state.dedupe_sent_at.entries.len()
        invariant
            i <= state.dedupe_sent_at.entries@.len(),
            keep2@.len() == i,
            forall|k: int| 0 <= k < i ==> #[trigger] keep2@[k] == stamp_fresh(
                state.dedupe_sent_at.entries@[k].1,
                now_ms,
            ),
        decreases state.dedupe_sent_at.entries.len() - i,
    {
        keep2.push(fresh_stamp(state.dedupe_sent_at.entries[i].1, now_ms));
        i = i + 1;
    }
    state.dedupe_sent_at.retain_where(&keep2);
    proof {
        let pe = orig.presence_by_client.entries@;
        assert forall|q: Seq<char>| #[trigger] state.presence_by_client.at(q) == (match orig.presence_by_client.at(q) {
            Some(p) => if presence_fresh(p, now_ms) { Some(p) } else { None },
            None => None,
        }) by {
            lemma_lookup_none(pe, q);
            if has_key(pe, q) {
                let k = choose|k: int| 0 <= k < pe.len() && #[trigger] pe[k].0@ == q;
                lemma_lookup_unique(pe, k);
                assert(keep@[k] == presence_fresh(pe[k].1, now_ms));
            } else {
                if state.presence_by_client.at(q) is Some {
                    assert(orig.presence_by_client.at(q) is Some);
                }
            }
        }
        let de = orig.dedupe_sent_at.entries@;
        assert forall|q: Seq<char>| #[trigger] state.dedupe_sent_at.at(q) == (match orig.dedupe_sent_at.at(q) {
            Some(t) => if stamp_fresh(t, now_ms) { Some(t) } else { None },
            None => None,
        }) by {
            lemma_lookup_none(de, q);
            if has_key(de, q) {
                let k = choose|k: int| 0 <= k < de.len() && #[trigger] de[k].0@ == q;
                lemma_lookup_unique(de, k);
                assert(keep2@[k] == stamp_fresh(de[k].1, now_ms));
            } else {
                if state.dedupe_sent_at.at(q) is Some {
                    assert(orig.dedupe_sent_at.at(q) is Some);
                }
            }
        }
    }
}

/// Whether `id` is among `ids`.
pub fn lists_id(ids: &Vec<String>, id: &str) -> (r: bool)
    ensures
        r == exists|i: int| 0 <= i < ids@.len() && #[trigger] ids@[i]@ == id@,
{
    let mut j: usize = 0;
    while j < ids.len()
        invariant
            j <= ids@.len(),
            forall|m: int| 0 <= m < j ==> #[trigger] ids@[m]@ != id@,
        decreases ids.len() - j,
    {
        if str_eq(ids[j].as_str(), id) {
            return true;
        }
        j = j + 1;
    }
    false
}

/// Whether some presence record holds back pushes for `workspace_id`.
pub fn has_non_afk_desktop_for_workspace(state: &PushBrokerState, workspace_id: &str) -> (r: bool)
    ensures
        r == exists|i: int|
            0 <= i < state.presence_by_client.entries@.len() && holds_back(
                #[trigger] state.presence_by_client.entries@[i].1,
                workspace_id@,
            ),
{
    let mut i: usize = 0;
    while i < state.presence_by_client.entries.len()
        invariant
            i <= state.presence_by_client.entries@.len(),
            forall|k: int| 0 <= k < i ==> !holds_back(#[trigger] state.presence_by_client.entries@[k].1, workspace_id@),
        decreases state.presence_by_client.entries.len() - i,
    {
        let p = &state.presence_by_client.entries[i].1;
        if str_eq(p.client_kind.as_str(), "desktop") && p.is_supported && !p.is_afk {
            if p.active_workspace_ids.len() == 0 || lists_id(&p.active_workspace_ids, workspace_id) {
                return true;
            }
        }
        i = i + 1;
    }
    false
}

impl PushBrokerState {
    pub open spec fn wf(&self) -> bool {
        &&& self.devices.wf()
        &&& self.presence_by_client.wf()
        &&& self.last_message_by_thread.wf()
        &&& self.dedupe_sent_at.wf()
    }

    /// Every presence record and dedupe stamp is within its window at `now`.
    pub open spec fn fresh_at(&self, now: i64) -> bool {
        &&& forall|q: Seq<char>| #[trigger] self.presence_by_client.at(q) matches Some(p) ==> presence_fresh(p, now)
        &&& forall|q: Seq<char>| #[trigger] self.dedupe_sent_at.at(q) matches Some(t) ==> stamp_fresh(t, now)
    }
}

/// The thread id of event params: `threadId` or `thread_id`, else the same
/// under `turn`; trimmed, and none when blank.
pub open spec fn push_thread_id_of(p: Json) -> Option<Seq<char>> {
    let turn = oobject(jget(p, "turn"@));
    or_else(
        non_empty_trimmed(ostr(or_else(jget(p, "threadId"@), jget(p, "thread_id"@)))),
        non_empty_trimmed(ostr(or_else(oget(turn, "threadId"@), oget(turn, "thread_id"@)))),
    )
}

/// The turn id of event params: `turnId` or `turn_id`, else `turn.id`;
/// trimmed, and none when blank.
pub open spec fn push_turn_id_of(p: Json) -> Option<Seq<char>> {
    let turn = oobject(jget(p, "turn"@));
    or_else(
        non_empty_trimmed(ostr(or_else(jget(p, "turnId"@), jget(p, "turn_id"@)))),
        non_empty_trimmed(ostr(oget(turn, "id"@))),
    )
}

fn trimmed_str_of(o: Option<&Json>) -> (r: Option<String>)
    ensures
        opt_view(r) == non_empty_trimmed(ostr(deref_opt(o))),
{
    match o {
        Some(Json::Str(s)) => normalize_optional_non_empty(Some(s.clone())),
        _ => None,
    }
}

fn object_ref(o: Option<&Json>) -> (r: Option<&Json>)
    ensures
        deref_opt(r) == oobject(deref_opt(o)),
{
    match o {
        Some(j) => match j {
            Json::Object(_) => Some(j),
            _ => None,
        },
        None => None,
    }
}

/// The thread id of event params.
pub fn parse_thread_id(params: &Json) -> (r: Option<String>)
    ensures
        opt_view(r) == push_thread_id_of(*params),
{
    match trimmed_str_of(get_either(Some(params), "threadId", "thread_id")) {
        Some(t) => Some(t),
        None => {
            let turn = object_ref(params.get("turn"));
            trimmed_str_of(get_either(turn, "threadId", "thread_id"))
        },
    }
}

/// The turn id of event params.
pub fn parse_turn_id(params: &Json) -> (r: Option<String>)
    ensures
        opt_view(r) == push_turn_id_of(*params),
{
    match trimmed_str_of(get_either(Some(params), "turnId", "turn_id")) {
        Some(t) => Some(t),
        None => {
            let turn = object_ref(params.get("turn"));
            trimmed_str_of(get_opt(turn, "id"))
        },
    }
}

/// The text of an `item/completed` event that records an agent message:
/// `item.type` is `agentMessage` and `item.text` is not blank.
pub open spec fn agent_message_of(p: Json) -> Option<Seq<char>> {
    let item = oobject(jget(p, "item"@));
    if ostr(oget(item, "type"@)) == Some("agentMessage"@) {
        non_empty_trimmed(ostr(oget(item, "text"@)))
    } else {
        None
    }
}

/// The enabled registrations among `s`, in order.
pub open spec fn enabled_devices(s: Seq<(String, PushDeviceRegistration)>) -> Seq<PushDeviceRegistration>
    decreases s.len(),
{
    if s.len() == 0 {
        Seq::empty()
    } else if s.last().1.enabled {
        enabled_devices(s.drop_last()).push(s.last().1)
    } else {
        enabled_devices(s.drop_last())
    }
}

/// Whether a dedupe stamp lets a push through at `now`: only a send within
/// the window, less than the window back, holds it back.
pub open spec fn dedupe_allows(stamp: Option<i64>, now: i64) -> bool {
    match stamp {
        Some(t) => !stamp_fresh(t, now) || now - t >= DEDUPE_WINDOW_MS,
        None => true,
    }
}

/// Whether a fresh presence record of `s` at `now` holds back pushes for `w`.
pub open spec fn held_back(s: PushBrokerState, w: Seq<char>, now: i64) -> bool {
    exists|q: Seq<char>|
        #[trigger] s.presence_by_client.at(q) matches Some(p) && presence_fresh(p, now) && holds_back(p, w)
}

pub proof fn lemma_table_exists<V>(t: Table<V>, f: spec_fn(V) -> bool)
    requires
        t.wf(),
    ensures
        (exists|i: int| 0 <= i < t.entries@.len() && f(#[trigger] t.entries@[i].1)) <==> (exists|
            q: Seq<char>,
        | #[trigger] t.at(q) matches Some(v) && f(v)),
{
    if exists|i: int| 0 <= i < t.entries@.len() && f(#[trigger] t.entries@[i].1) {
        let i = choose|i: int| 0 <= i < t.entries@.len() && f(#[trigger] t.entries@[i].1);
        lemma_lookup_unique(t.entries@, i);
        assert(t.at(t.entries@[i].0@) matches Some(v) && f(v));
    }
    if exists|q: Seq<char>| #[trigger] t.at(q) matches Some(v) && f(v) {
        let q = choose|q: Seq<char>| #[trigger] t.at(q) matches Some(v) && f(v);
        lemma_lookup_none(t.entries@, q);
        let i = choose|i: int| 0 <= i < t.entries@.len() && #[trigger] t.entries@[i].0@ == q;
        lemma_lookup_unique(t.entries@, i);
        assert(f(t.entries@[i].1));
    }
}

impl PushBrokerState {
    /// The state that a state file gives: its relay settings normalised and
    /// its devices keyed by id, a later registration of an id replacing an
    /// earlier one.
    pub fn load(persisted: PersistedPushState) -> (r: PushBrokerState)
        ensures
            r.wf(),
            opt_view(r.relay_url) == non_empty_trimmed(opt_view(persisted.relay_url)),
            opt_view(r.relay_auth_token) == non_empty_trimmed(opt_view(persisted.relay_auth_token)),
            forall|q: Seq<char>| #[trigger] r.presence_by_client.at(q) is None,
            forall|q: Seq<char>| #[trigger] r.last_message_by_thread.at(q) is None,
            forall|q: Seq<char>| #[trigger] r.dedupe_sent_at.at(q) is None,
            forall|i: int|
                0 <= i < persisted.devices@.len() && (forall|j: int|
                    i < j < persisted.devices@.len() ==> #[trigger] persisted.devices@[j].device_id@
                        != persisted.devices@[i].device_id@) ==> r.devices.at(
                    #[trigger] persisted.devices@[i].device_id@,
                ) == Some(persisted.devices@[i]),
    {
        let mut devices: Table<PushDeviceRegistration> = Table::new();
        let mut i: usize = 0;
        proof {
            lemma_lookup_none(devices.entries@, Seq::empty());
        }
        while i < persisted.devices.len()
            invariant
                i <= persisted.devices@.len(),
                devices.wf(),
                forall|k: int|
                    0 <= k < i && (forall|j: int|
                        k < j < i ==> #[trigger] persisted.devices@[j].device_id@
                            != persisted.devices@[k].device_id@) ==> devices.at(
                        #[trigger] persisted.devices@[k].device_id@,
                    ) == Some(persisted.devices@[k]),
            decreases persisted.devices.len() - i,
        {
            let d = persisted.devices[i].copy();
            let ghost mid = devices;
            devices.insert(d.device_id.clone(), d);
            proof {
                assert forall|k: int|
                    0 <= k < i + 1 && (forall|j: int|
                        k < j < i + 1 ==> #[trigger] persisted.devices@[j].device_id@
                            != persisted.devices@[k].device_id@) implies devices.at(
                    #[trigger] persisted.devices@[k].device_id@,
                ) == Some(persisted.devices@[k]) by {
                    if k < i {
                        assert(persisted.devices@[i as int].device_id@ != persisted.devices@[k].device_id@);
                        assert(devices.at(persisted.devices@[k].device_id@) == mid.at(persisted.devices@[k].device_id@));
                    }
                }
            }
            i = i + 1;
        }
        let r = PushBrokerState {
            relay_url: normalize_optional_non_empty(persisted.relay_url),
            relay_auth_token: normalize_optional_non_empty(persisted.relay_auth_token),
            devices,
            presence_by_client: Table::new(),
            last_message_by_thread: Table::new(),
            dedupe_sent_at: Table::new(),
        };
        proof {
            assert forall|q: Seq<char>| #[trigger] r.presence_by_client.at(q) is None by {
                lemma_lookup_none(r.presence_by_client.entries@, q);
            }
            assert forall|q: Seq<char>| #[trigger] r.last_message_by_thread.at(q) is None by {
                lemma_lookup_none(r.last_message_by_thread.entries@, q);
            }
            assert forall|q: Seq<char>| #[trigger] r.dedupe_sent_at.at(q) is None by {
                lemma_lookup_none(r.dedupe_sent_at.entries@, q);
            }
        }
        r
    }

    /// What the state file is to hold: the relay settings and the devices.
    pub fn persisted(&self) -> (r: PersistedPushState)
        ensures
            opt_view(r.relay_url) == opt_view(self.relay_url),
            opt_view(r.relay_auth_token) == opt_view(self.relay_auth_token),
            r.devices@ == persisted_view(*self).2,
    {
        let mut devices: Vec<PushDeviceRegistration> = Vec::new();
        let mut i: usize = 0;
        while i < self.devices.entries.len()
            invariant
                i <= self.devices.entries@.len(),
                devices@ =~= Seq::new(i as nat, |k: int| self.devices.entries@[k].1),
            decreases self.devices.entries.len() - i,
        {
            devices.push(self.devices.entries[i].1.copy());
            i = i + 1;
        }
        PushBrokerState::persisted_of(self, devices)
    }

    fn persisted_of(&self, devices: Vec<PushDeviceRegistration>) -> (r: PersistedPushState)
        ensures
            opt_view(r.relay_url) == opt_view(self.relay_url),
            opt_view(r.relay_auth_token) == opt_view(self.relay_auth_token),
            r.devices == devices,
    {
        PersistedPushState {
            relay_url: match &self.relay_url {
                Some(u) => Some(u.clone()),
                None => None,
            },
            relay_auth_token: match &self.relay_auth_token {
                Some(t) => Some(t.clone()),
                None => None,
            },
            devices,
        }
    }

    /// The configuration as it may be shown: the relay URL, whether a
    /// non-blank token is set, and how many devices are registered.
    pub fn config_snapshot(&self) -> (r: ConfigSnapshot)
        ensures
            opt_view(r.relay_url) == opt_view(self.relay_url),
            r.has_relay_auth_token == (self.relay_auth_token matches Some(t) && trimmed(t@).len() > 0),
            r.registered_device_count == self.devices.entries@.len(),
    {
        let has_token = match &self.relay_auth_token {
            Some(t) => !trim(t.as_str()).as_str().is_empty(),
            None => false,
        };
        ConfigSnapshot {
            relay_url: match &self.relay_url {
                Some(u) => Some(u.clone()),
                None => None,
            },
            has_relay_auth_token: has_token,
            registered_device_count: self.devices.len(),
        }
    }

    /// Applies a change of the relay settings; each given setting is
    /// normalised, blank meaning none.
    pub fn patch_config(&mut self, patch: PushNotificationConfigPatch)
        ensures
            opt_view(final(self).relay_url) == match patch.relay_url {
                Some(u) => non_empty_trimmed(opt_view(u)),
                None => opt_view(old(self).relay_url),
            },
            opt_view(final(self).relay_auth_token) == match patch.relay_auth_token {
                Some(t) => non_empty_trimmed(opt_view(t)),
                None => opt_view(old(self).relay_auth_token),
            },
            final(self).devices == old(self).devices,
            final(self).presence_by_client == old(self).presence_by_client,
            final(self).last_message_by_thread == old(self).last_message_by_thread,
            final(self).dedupe_sent_at == old(self).dedupe_sent_at,
    {
        if let Some(next) = patch.relay_url {
            self.relay_url = normalize_optional_non_empty(next);
        }
        if let Some(next) = patch.relay_auth_token {
            self.relay_auth_token = normalize_optional_non_empty(next);
        }
    }
}

/// The views of the non-blank ids of `s`, trimmed, in order.
pub open spec fn trimmed_ids(s: Seq<String>) -> Seq<Seq<char>>
    decreases s.len(),
{
    if s.len() == 0 {
        Seq::empty()
    } else if trimmed(s.last()@).len() > 0 {
        trimmed_ids(s.drop_last()).push(trimmed(s.last()@))
    } else {
        trimmed_ids(s.drop_last())
    }
}

pub open spec fn ids_view(s: Seq<String>) -> Seq<Seq<char>> {
    Seq::new(s.len(), |i: int| s[i]@)
}

fn trim_ids(ids: &Vec<String>) -> (r: Vec<String>)
    ensures
        ids_view(r@) == trimmed_ids(ids@),
{
    let mut out: Vec<String> = Vec::new();
    let mut i: usize = 0;
    while i < ids.len()
        invariant
            i <= ids@.len(),
            ids_view(out@) == trimmed_ids(ids@.subrange(0, i as int)),
        decreases ids.len() - i,
    {
        let t = trim(ids[i].as_str());
        let ghost sub = ids@.subrange(0, i + 1);
        proof {
            assert(sub.drop_last() =~= ids@.subrange(0, i as int));
        }
        if !t.as_str().is_empty() {
            out.push(t);
            assert(ids_view(out@) =~= trimmed_ids(sub));
        } else {
            assert(ids_view(out@) =~= trimmed_ids(sub));
        }
        i = i + 1;
    }
    assert(ids@.subrange(0, ids@.len() as int) =~= ids@);
    out
}

/// A registration that a device input gives, or the reason it is refused.
pub open spec fn registration_outcome(input: PushDeviceRegistrationInput) -> Result<
    (Seq<char>, Seq<char>, Seq<char>),
    Seq<char>,
> {
    let id = trimmed(input.device_id@);
    let token = trimmed(input.token@);
    let platform = ascii_lower(trimmed(input.platform@));
    if id.len() == 0 {
        Err("missing `deviceId`"@)
    } else if token.len() == 0 {
        Err("missing `token`"@)
    } else if platform.len() == 0 {
        Err("missing `platform`"@)
    } else if platform != "android"@ && platform != "ios"@ {
        Err("`platform` must be `android` or `ios`"@)
    } else {
        Ok((id, platform, token))
    }
}

impl PushBrokerState {
    /// Records a heartbeat at `now_ms`, after dropping stale entries. The
    /// client id is required.
    pub fn record_presence(&mut self, input: PresenceHeartbeatInput, now_ms: i64) -> (r: Result<(), String>)
        requires
            old(self).wf(),
        ensures
            final(self).wf(),
            trimmed(input.client_id@).len() == 0 <==> r is Err,
            r matches Err(e) ==> e@ == "missing `clientId`"@ && *final(self) == *old(self),
            r is Ok ==> {
                &&& final(self).fresh_at(now_ms)
                &&& final(self).presence_by_client.at(trimmed(input.client_id@)) matches Some(p) && p.client_id@
                    == trimmed(input.client_id@) && p.client_kind@ == client_kind_of(input.client_kind@)
                    && opt_view(p.platform) == non_empty_trimmed(opt_view(input.platform))
                    && p.is_supported == input.is_supported && p.is_focused == input.is_focused
                    && p.is_afk == input.is_afk && ids_view(p.active_workspace_ids@) == trimmed_ids(
                    input.active_workspace_ids@,
                ) && p.last_seen_at_ms == now_ms
                &&& forall|q: Seq<char>|
                    q != trimmed(input.client_id@) ==> #[trigger] final(self).presence_by_client.at(q)
                        == (match old(self).presence_by_client.at(q) {
                        Some(p) => if presence_fresh(p, now_ms) { Some(p) } else { None },
                        None => None,
                    })
                &&& final(self).devices == old(self).devices
                &&& final(self).last_message_by_thread == old(self).last_message_by_thread
            },
    {
        let client_id = trim(input.client_id.as_str());
        if client_id.as_str().is_empty() {
            return Err("missing `clientId`".to_owned());
        }
        prune_stale_entries(self, now_ms);
        let ghost mid = *self;
        let record = PresenceRecord {
            client_id: client_id.clone(),
            client_kind: normalize_client_kind(input.client_kind),
            platform: normalize_optional_non_empty(input.platform),
            is_supported: input.is_supported,
            is_focused: input.is_focused,
            is_afk: input.is_afk,
            active_workspace_ids: trim_ids(&input.active_workspace_ids),
            last_seen_at_ms: now_ms,
        };
        self.presence_by_client.insert(client_id, record);
        proof {
            assert forall|q: Seq<char>| #[trigger] self.presence_by_client.at(q) is Some
                implies presence_fresh(self.presence_by_client.at(q)->0, now_ms) by {
                if q != client_id@ {
                    assert(self.presence_by_client.at(q) == mid.presence_by_client.at(q));
                }
            }
        }
        Ok(())
    }

    /// Registers a device, enabled and seen at `now_ms`, replacing any
    /// registration of the same id; returns the registration.
    pub fn register_device(&mut self, input: PushDeviceRegistrationInput, now_ms: i64) -> (r: Result<
        PushDeviceRegistration,
        String,
    >)
        requires
            old(self).wf(),
        ensures
            final(self).wf(),
            match registration_outcome(input) {
                Err(msg) => r matches Err(e) && e@ == msg && *final(self) == *old(self),
                Ok((id, platform, token)) => r matches Ok(d) && {
                    &&& d.device_id@ == id && d.platform@ == platform && d.token@ == token
                    &&& opt_view(d.label) == non_empty_trimmed(opt_view(input.label))
                    &&& d.enabled && d.last_seen_at_ms == Some(now_ms)
                    &&& final(self).devices.at(id) == Some(d)
                    &&& forall|q: Seq<char>| q != id ==> #[trigger] final(self).devices.at(q) == old(self).devices.at(q)
                    &&& !old(self).devices.contains(id) ==> final(self).devices.entries@.len()
                        == old(self).devices.entries@.len() + 1 && final(self).devices.entries@.subrange(
                        0,
                        old(self).devices.entries@.len() as int,
                    ) == old(self).devices.entries@ && final(self).devices.entries@.last().0@ == id
                    &&& final(self).relay_url == old(self).relay_url
                    &&& final(self).relay_auth_token == old(self).relay_auth_token
                    &&& final(self).presence_by_client == old(self).presence_by_client
                    &&& final(self).last_message_by_thread == old(self).last_message_by_thread
                    &&& final(self).dedupe_sent_at == old(self).dedupe_sent_at
                },
            },
    {
        let device_id = trim(input.device_id.as_str());
        if device_id.as_str().is_empty() {
            return Err("missing `deviceId`".to_owned());
        }
        let token = trim(input.token.as_str());
        if token.as_str().is_empty() {
            return Err("missing `token`".to_owned());
        }
        let platform = match normalize_platform(input.platform) {
            Ok(p) => p,
            Err(e) => return Err(e.message()),
        };
        let device = PushDeviceRegistration {
            device_id: device_id.clone(),
            platform,
            token,
            label: normalize_optional_non_empty(input.label),
            enabled: true,
            last_seen_at_ms: Some(now_ms),
        };
        let out = device.copy();
        let ghost before = self.devices.entries@;
        proof {
            reveal_strlit("android");
            reveal_strlit("ios");
        }
        self.devices.insert(device_id, device);
        proof {
            if !has_key(before, out.device_id@) {
                assert(self.devices.entries@.subrange(0, before.len() as int) =~= before);
                assert(self.devices.entries@.last().0@ == out.device_id@);
            }
            assert(self.devices.at(out.device_id@) == Some(out));
        }
        Ok(out)
    }

    /// Removes the registration of a device id, given with any surrounding
    /// blanks; the id is required.
    pub fn unregister_device(&mut self, device_id: String) -> (r: Result<(), String>)
        requires
            old(self).wf(),
        ensures
            final(self).wf(),
            trimmed(device_id@).len() == 0 ==> (r matches Err(e) && e@ == "missing `deviceId`"@
                && *final(self) == *old(self)),
            trimmed(device_id@).len() > 0 ==> {
                &&& r is Ok
                &&& final(self).devices.at(trimmed(device_id@)) is None
                &&& forall|q: Seq<char>| q != trimmed(device_id@) ==> #[trigger] final(self).devices.at(q) == old(self).devices.at(q)
                &&& old(self).devices.contains(trimmed(device_id@)) ==> exists|i: int|
                    0 <= i < old(self).devices.entries@.len() && #[trigger] old(self).devices.entries@[i].0@
                        == trimmed(device_id@) && final(self).devices.entries@
                        == old(self).devices.entries@.remove(i)
                &&& !old(self).devices.contains(trimmed(device_id@)) ==> final(self).devices.entries@
                    == old(self).devices.entries@
                &&& final(self).relay_url == old(self).relay_url
                &&& final(self).relay_auth_token == old(self).relay_auth_token
                &&& final(self).presence_by_client == old(self).presence_by_client
                &&& final(self).last_message_by_thread == old(self).last_message_by_thread
                &&& final(self).dedupe_sent_at == old(self).dedupe_sent_at
            },
    {
        let id = trim(device_id.as_str());
        if id.as_str().is_empty() {
            return Err("missing `deviceId`".to_owned());
        }
        let _ = self.devices.remove(id.as_str());
        Ok(())
    }
}

/// Registering a device id that was not registered and then unregistering
/// it leaves what the state file holds exactly as it was.
pub proof fn lemma_register_then_unregister_restores(
    s0: PushBrokerState,
    s1: PushBrokerState,
    s2: PushBrokerState,
    id: Seq<char>,
)
    requires
        s1.wf(),
        !s0.devices.contains(id),
        s1.devices.entries@.len() == s0.devices.entries@.len() + 1,
        s1.devices.entries@.subrange(0, s0.devices.entries@.len() as int) == s0.devices.entries@,
        s1.devices.entries@.last().0@ == id,
        s1.relay_url == s0.relay_url,
        s1.relay_auth_token == s0.relay_auth_token,
        exists|i: int|
            0 <= i < s1.devices.entries@.len() && #[trigger] s1.devices.entries@[i].0@ == id
                && s2.devices.entries@ == s1.devices.entries@.remove(i),
        s2.relay_url == s1.relay_url,
        s2.relay_auth_token == s1.relay_auth_token,
    ensures
        persisted_view(s2) == persisted_view(s0),
{
    let n = s0.devices.entries@.len() as int;
    let i = choose|i: int|
        0 <= i < s1.devices.entries@.len() && #[trigger] s1.devices.entries@[i].0@ == id
            && s2.devices.entries@ == s1.devices.entries@.remove(i);
    if i < n {
        assert(s1.devices.entries@[i] == s0.devices.entries@[i]);
        assert(s1.devices.entries@[n].0@ == id);
    }
    assert(s2.devices.entries@ =~= s0.devices.entries@);
    assert(persisted_view(s2).2 =~= persisted_view(s0).2);
}

/// The retry flag of error params: `willRetry` when it is a boolean, else
/// `will_retry` when it is one, else false.
pub open spec fn push_will_retry_of(p: Json) -> bool {
    match or_else(obool(jget(p, "willRetry"@)), obool(jget(p, "will_retry"@))) {
        Some(b) => b,
        None => false,
    }
}

/// The error message of error params: `error.message`, trimmed, when not blank.
pub open spec fn push_error_message_of(p: Json) -> Option<Seq<char>> {
    non_empty_trimmed(ostr(oget(oobject(jget(p, "error"@)), "message"@)))
}

fn bool_of(o: Option<&Json>) -> (r: Option<bool>)
    ensures
        r == obool(deref_opt(o)),
{
    match o {
        Some(Json::Bool(b)) => Some(*b),
        _ => None,
    }
}

fn copy_opt(o: &Option<String>) -> (r: Option<String>)
    ensures
        r == *o,
{
    match o {
        Some(s) => Some(s.clone()),
        None => None,
    }
}

impl PushBrokerState {
    /// Keeps the text of an agent message of `item/completed` params as the
    /// preview of its thread, under `workspace:thread`.
    pub fn capture_last_agent_message(&mut self, workspace_id: &str, params: &Json)
        requires
            old(self).wf(),
        ensures
            final(self).wf(),
            match (push_thread_id_of(*params), agent_message_of(*params)) {
                (Some(t), Some(text)) => {
                    &&& opt_view(final(self).last_message_by_thread.at(workspace_id@ + ":"@ + t)) == Some(clamped(text))
                    &&& forall|q: Seq<char>| q != workspace_id@ + ":"@ + t ==> #[trigger] final(self).last_message_by_thread.at(q)
                        == old(self).last_message_by_thread.at(q)
                },
                _ => *final(self) == *old(self),
            },
            final(self).devices == old(self).devices,
            final(self).presence_by_client == old(self).presence_by_client,
            final(self).dedupe_sent_at == old(self).dedupe_sent_at,
            final(self).relay_url == old(self).relay_url,
            final(self).relay_auth_token == old(self).relay_auth_token,
    {
        let thread_id = match parse_thread_id(params) {
            Some(t) => t,
            None => return ,
        };
        let item = object_ref(params.get("item"));
        let is_agent = match str_of_ref(get_opt(item, "type")) {
            Some(t) => str_eq(t.as_str(), "agentMessage"),
            None => false,
        };
        if !is_agent {
            return ;
        }
        let text = match trimmed_str_of(get_opt(item, "text")) {
            Some(t) => t,
            None => return ,
        };
        let key = make_thread_key(workspace_id, thread_id.as_str());
        self.last_message_by_thread.insert(key, clamp_preview(text));
    }

    /// The push for `turn/completed` params: the thread's captured preview,
    /// which is consumed, else the default one. `None` without a thread id.
    pub fn build_turn_completed_event(
        &mut self,
        workspace_id: &str,
        workspace_name: Option<String>,
        params: &Json,
    ) -> (r: Option<PushEvent>)
        requires
            old(self).wf(),
        ensures
            final(self).wf(),
            match push_thread_id_of(*params) {
                None => r is None && *final(self) == *old(self),
                Some(t) => r matches Some(e) && {
                    let key = workspace_id@ + ":"@ + t;
                    &&& e.kind == PushKind::TurnCompleted
                    &&& e.workspace_id@ == workspace_id@
                    &&& e.workspace_name == workspace_name
                    &&& e.thread_id@ == t
                    &&& opt_view(e.turn_id) == push_turn_id_of(*params)
                    &&& e.preview@ == clamped(match old(self).last_message_by_thread.at(key) {
                        Some(m) => m@,
                        None => default_completed_preview(),
                    })
                    &&& final(self).last_message_by_thread.at(key) is None
                    &&& forall|q: Seq<char>| q != key ==> #[trigger] final(self).last_message_by_thread.at(q)
                        == old(self).last_message_by_thread.at(q)
                },
            },
            final(self).devices == old(self).devices,
            final(self).presence_by_client == old(self).presence_by_client,
            final(self).dedupe_sent_at == old(self).dedupe_sent_at,
            final(self).relay_url == old(self).relay_url,
            final(self).relay_auth_token == old(self).relay_auth_token,
    {
        let thread_id = match parse_thread_id(params) {
            Some(t) => t,
            None => return None,
        };
        let turn_id = parse_turn_id(params);
        let key = make_thread_key(workspace_id, thread_id.as_str());
        let preview = match self.last_message_by_thread.remove(key.as_str()) {
            Some(m) => m,
            None => "Your agent finished a task.".to_owned(),
        };
        Some(PushEvent {
            kind: PushKind::TurnCompleted,
            workspace_id: workspace_id.to_owned(),
            workspace_name,
            thread_id,
            turn_id,
            preview: clamp_preview(preview),
        })
    }

    /// The push for `error` params: none when the server retries the turn
    /// itself or no thread id is given; else the error message, or the
    /// default one.
    pub fn build_turn_error_event(
        &self,
        workspace_id: &str,
        workspace_name: Option<String>,
        params: &Json,
    ) -> (r: Option<PushEvent>)
        ensures
            match push_thread_id_of(*params) {
                Some(t) if !push_will_retry_of(*params) => r matches Some(e) && {
                    &&& e.kind == PushKind::TurnError
                    &&& e.workspace_id@ == workspace_id@
                    &&& e.workspace_name == workspace_name
                    &&& e.thread_id@ == t
                    &&& opt_view(e.turn_id) == push_turn_id_of(*params)
                    &&& e.preview@ == clamped(match push_error_message_of(*params) {
                        Some(m) => m,
                        None => default_error_preview(),
                    })
                },
                _ => r is None,
            },
    {
        let will_retry = match bool_of(params.get("willRetry")) {
            Some(b) => b,
            None => match bool_of(params.get("will_retry")) {
                Some(b) => b,
                None => false,
            },
        };
        if will_retry {
            return None;
        }
        let thread_id = match parse_thread_id(params) {
            Some(t) => t,
            None => return None,
        };
        let turn_id = parse_turn_id(params);
        let message = match trimmed_str_of(get_opt(object_ref(params.get("error")), "message")) {
            Some(m) => m,
            None => "Agent run failed.".to_owned(),
        };
        Some(PushEvent {
            kind: PushKind::TurnError,
            workspace_id: workspace_id.to_owned(),
            workspace_name,
            thread_id,
            turn_id,
            preview: clamp_preview(message),
        })
    }
}

fn str_of_ref(o: Option<&Json>) -> (r: Option<&String>)
    ensures
        (match r {
            Some(s) => Some(s@),
            None => None,
        }) == ostr(deref_opt(o)),
{
    match o {
        Some(Json::Str(s)) => Some(s),
        _ => None,
    }
}

/// The params of a message; a message without them reads as having none.
pub open spec fn message_params(m: Json) -> Json {
    match jget(m, "params"@) {
        Some(p) => p,
        None => Json::Null,
    }
}

/// The title of a push for `event`.
pub fn push_title(event: &PushEvent) -> (r: String)
    ensures
        r@ == title_of(*event),
{
    let base = match event.kind {
        PushKind::TurnError => "Agent Error",
        PushKind::TurnCompleted => "Agent Complete",
    };
    match &event.workspace_name {
        Some(name) => {
            let left = concat(base, " — ");
            concat(left.as_str(), name.as_str())
        },
        None => base.to_owned(),
    }
}

fn enabled_device_list(devices: &Table<PushDeviceRegistration>) -> (r: Vec<PushDeviceRegistration>)
    ensures
        r@ == enabled_devices(devices.entries@),
{
    let mut out: Vec<PushDeviceRegistration> = Vec::new();
    let mut i: usize = 0;
    while i < devices.entries.len()
        invariant
            i <= devices.entries@.len(),
            out@ == enabled_devices(devices.entries@.subrange(0, i as int)),
        decreases devices.entries.len() - i,
    {
        let ghost sub = devices.entries@.subrange(0, i + 1);
        proof {
            assert(sub.drop_last() =~= devices.entries@.subrange(0, i as int));
        }
        if devices.entries[i].1.enabled {
            out.push(devices.entries[i].1.copy());
        }
        i = i + 1;
    }
    assert(devices.entries@.subrange(0, devices.entries@.len() as int) =~= devices.entries@);
    out
}

/// Reading a message's params, or an empty object when they are missing or
/// are not an object, gives the same ids, flags and messages.
proof fn lemma_same_params(message: Json, params: Json)
    requires
        params == (match oobject(jget(message, "params"@)) {
            Some(p) => p,
            None => params,
        }),
        oobject(jget(message, "params"@)) is None ==> (params matches Json::Object(f) && f@.len() == 0),
    ensures
        push_thread_id_of(params) == push_thread_id_of(message_params(message)),
        push_turn_id_of(params) == push_turn_id_of(message_params(message)),
        push_will_retry_of(params) == push_will_retry_of(message_params(message)),
        push_error_message_of(params) == push_error_message_of(message_params(message)),
        agent_message_of(params) == agent_message_of(message_params(message)),
{
}

impl PushBrokerState {
    /// Decides whether `event` is pushed at `now_ms`. Stale entries are
    /// dropped first. No push while a desktop client holds pushes back for
    /// the workspace, when no device is enabled, or when the same push went
    /// out within the dedupe window; otherwise the send time is recorded and
    /// the delivery lists the enabled devices.
    pub fn prepare_delivery(&mut self, event: PushEvent, now_ms: i64) -> (r: Option<PreparedDelivery>)
        requires
            old(self).wf(),
        ensures
            final(self).wf(),
            final(self).fresh_at(now_ms),
            ({
                let key = dedupe_key_of(event);
                let go = !held_back(*old(self), event.workspace_id@, now_ms) && enabled_devices(
                    old(self).devices.entries@,
                ).len() > 0 && dedupe_allows(old(self).dedupe_sent_at.at(key), now_ms);
                &&& (r is Some <==> go)
                &&& r matches Some(d) ==> {
                    &&& d.event == event
                    &&& d.title@ == title_of(event)
                    &&& d.body@ == event.preview@
                    &&& d.devices@ == enabled_devices(old(self).devices.entries@)
                    &&& d.timestamp_ms == now_ms
                    &&& d.relay_url == old(self).relay_url
                    &&& d.relay_auth_token == old(self).relay_auth_token
                    &&& final(self).dedupe_sent_at.at(key) == Some(now_ms)
                }
                &&& forall|q: Seq<char>| (r is None || q != key) ==> #[trigger] final(self).dedupe_sent_at.at(q)
                    == (match old(self).dedupe_sent_at.at(q) {
                    Some(t) => if stamp_fresh(t, now_ms) { Some(t) } else { None },
                    None => None,
                })
            }),
            forall|q: Seq<char>| #[trigger] final(self).presence_by_client.at(q) == (match old(self).presence_by_client.at(q) {
                Some(p) => if presence_fresh(p, now_ms) { Some(p) } else { None },
                None => None,
            }),
            final(self).devices == old(self).devices,
            final(self).last_message_by_thread == old(self).last_message_by_thread,
            final(self).relay_url == old(self).relay_url,
            final(self).relay_auth_token == old(self).relay_auth_token,
    {
        let ghost orig = *self;
        prune_stale_entries(self, now_ms);
        let held = has_non_afk_desktop_for_workspace(self, event.workspace_id.as_str());
        proof {
            let f = |p: PresenceRecord| holds_back(p, event.workspace_id@);
            lemma_table_exists(self.presence_by_client, f);
            assert(held == held_back(orig, event.workspace_id@, now_ms)) by {
                if held {
                    let q = choose|q: Seq<char>| #[trigger] self.presence_by_client.at(q) matches Some(v) && f(v);
                    assert(orig.presence_by_client.at(q) matches Some(p) && presence_fresh(p, now_ms) && holds_back(p, event.workspace_id@));
                }
                if held_back(orig, event.workspace_id@, now_ms) {
                    let q = choose|q: Seq<char>| #[trigger] orig.presence_by_client.at(q) matches Some(p) && presence_fresh(p, now_ms) && holds_back(p, event.workspace_id@);
                    assert(self.presence_by_client.at(q) matches Some(v) && f(v));
                }
            }
        }
        if held {
            return None;
        }
        let devices = enabled_device_list(&self.devices);
        if devices.len() == 0 {
            return None;
        }
        let key = make_dedupe_key(&event);
        if let Some(t) = self.dedupe_sent_at.get(key.as_str()) {
            if (now_ms as i128) - (*t as i128) < DEDUPE_WINDOW_MS as i128 {
                return None;
            }
        }
        let ghost mid = *self;
        self.dedupe_sent_at.insert(key, now_ms);
        proof {
            assert forall|q: Seq<char>| #[trigger] self.dedupe_sent_at.at(q) is Some implies stamp_fresh(
                self.dedupe_sent_at.at(q)->0,
                now_ms,
            ) by {
                if q != dedupe_key_of(event) {
                    assert(self.dedupe_sent_at.at(q) == mid.dedupe_sent_at.at(q));
                }
            }
        }
        let title = push_title(&event);
        let body = event.preview.clone();
        Some(PreparedDelivery {
            relay_url: copy_opt(&self.relay_url),
            relay_auth_token: copy_opt(&self.relay_auth_token),
            event,
            title,
            body,
            devices,
            timestamp_ms: now_ms,
        })
    }

    /// Handles one routed event of workspace `workspace_id` at `now_ms`: an
    /// agent message is kept as its thread's preview; a completed or failed
    /// turn becomes a push, returned when it is to be delivered.
    pub fn handle_app_server_event(
        &mut self,
        workspace_id: &str,
        workspace_name: Option<String>,
        message: &Json,
        now_ms: i64,
    ) -> (r: Option<PreparedDelivery>)
        requires
            old(self).wf(),
        ensures
            final(self).wf(),
            r matches Some(d) ==> d.event.workspace_id@ == workspace_id@ && d.timestamp_ms == now_ms
                && d.devices@ == enabled_devices(old(self).devices.entries@)
                && d.event.workspace_name == workspace_name
                && Some(d.event.thread_id@) == push_thread_id_of(message_params(*message))
                && opt_view(d.event.turn_id) == push_turn_id_of(message_params(*message))
                && d.title@ == title_of(d.event) && d.body@ == d.event.preview@
                && d.relay_url == old(self).relay_url && d.relay_auth_token == old(self).relay_auth_token,
            ({
                let p = message_params(*message);
                match ostr(jget(*message, "method"@)) {
                    Some(m) => if m == "item/completed"@ {
                        &&& r is None
                        &&& final(self).devices == old(self).devices
                        &&& final(self).presence_by_client == old(self).presence_by_client
                        &&& final(self).dedupe_sent_at == old(self).dedupe_sent_at
                        &&& match (push_thread_id_of(p), agent_message_of(p)) {
                            (Some(t), Some(text)) => {
                                &&& opt_view(final(self).last_message_by_thread.at(workspace_id@ + ":"@ + t))
                                    == Some(clamped(text))
                                &&& forall|q: Seq<char>|
                                    q != workspace_id@ + ":"@ + t ==> #[trigger] final(self).last_message_by_thread.at(q)
                                        == old(self).last_message_by_thread.at(q)
                            },
                            _ => *final(self) == *old(self),
                        }
                    } else if m == "turn/completed"@ {
                        match push_thread_id_of(p) {
                            None => r is None && *final(self) == *old(self),
                            Some(t) => {
                                &&& (r is Some <==> push_due(
                                    *old(self),
                                    PushKind::TurnCompleted,
                                    workspace_id@,
                                    t,
                                    push_turn_id_of(p),
                                    now_ms,
                                ))
                                &&& r matches Some(d) ==> d.event.kind == PushKind::TurnCompleted
                                    && d.event.preview@ == clamped(
                                    match old(self).last_message_by_thread.at(workspace_id@ + ":"@ + t) {
                                        Some(mm) => mm@,
                                        None => default_completed_preview(),
                                    },
                                )
                                &&& final(self).last_message_by_thread.at(workspace_id@ + ":"@ + t) is None
                            },
                        }
                    } else if m == "error"@ {
                        if push_will_retry_of(p) || push_thread_id_of(p) is None {
                            r is None && *final(self) == *old(self)
                        } else {
                            &&& (r is Some <==> push_due(
                                *old(self),
                                PushKind::TurnError,
                                workspace_id@,
                                push_thread_id_of(p)->0,
                                push_turn_id_of(p),
                                now_ms,
                            ))
                            &&& r matches Some(d) ==> d.event.kind == PushKind::TurnError && d.event.preview@
                                == clamped(match push_error_message_of(p) {
                                Some(t) => t,
                                None => default_error_preview(),
                            })
                        }
                    } else {
                        r is None && *final(self) == *old(self)
                    },
                    None => r is None && *final(self) == *old(self),
                }
            }),
            final(self).devices == old(self).devices,
            final(self).relay_url == old(self).relay_url,
            final(self).relay_auth_token == old(self).relay_auth_token,
    {
        let method = match str_of_ref(message.get("method")) {
            Some(m) => m,
            None => return None,
        };
        let empty = Json::Object(Vec::new());
        let params: &Json = match object_ref(message.get("params")) {
            Some(p) => p,
            None => &empty,
        };
        proof {
            reveal_strlit("error");
            reveal_strlit("turn/completed");
            reveal_strlit("item/completed");
            reveal_strlit("method");
            assert("error"@.len() != "turn/completed"@.len());
            assert("error"@.len() != "item/completed"@.len());
            assert("turn/completed"@[0] != "item/completed"@[0]);
            lemma_same_params(*message, *params);
        }
        if str_eq(method.as_str(), "item/completed") {
            self.capture_last_agent_message(workspace_id, params);
            return None;
        }
        let candidate = if str_eq(method.as_str(), "turn/completed") {
            self.build_turn_completed_event(workspace_id, workspace_name, params)
        } else if str_eq(method.as_str(), "error") {
            self.build_turn_error_event(workspace_id, workspace_name, params)
        } else {
            None
        };
        match candidate {
            Some(event) => self.prepare_delivery(event, now_ms),
            None => None,
        }
    }
}

/// Two pushes under one dedupe key lie at least the dedupe window apart.
/// After a push at `t1` the key's stamp is `t1`; a push at `t2` goes out only
/// when the stamp lets it through, or after a prune at some `t` in `t1..=t2`
/// dropped the stamp as stale.
pub proof fn lemma_dedupe_spacing(t1: i64, t2: i64, pruned_at: Option<i64>)
    requires
        match pruned_at {
            None => dedupe_allows(Some(t1), t2),
            Some(t) => !stamp_fresh(t1, t) && t <= t2,
        },
    ensures
        t2 - t1 >= DEDUPE_WINDOW_MS,
{
}

/// Relies on `SystemTime::now` and `UNIX_EPOCH`: the milliseconds since the
/// epoch, or 0 when the clock is set before it. Nothing is promised of the value.
#[verifier::external_body]
pub fn now_ms() -> i64 {
    std::time::SystemTime::now().duration_since(std::time::UNIX_EPOCH).map(
        |duration| duration.as_millis() as i64,
    ).unwrap_or(0)
}

/// A JSON number for `n`.
pub open spec fn json_int(n: i64) -> Json {
    if n >= 0 {
        Json::UInt(n as u64)
    } else {
        Json::Int(n)
    }
}

pub fn json_i64(n: i64) -> (r: Json)
    ensures
        r == json_int(n),
{
    if n >= 0 {
        Json::UInt(n as u64)
    } else {
        Json::Int(n)
    }
}

fn json_opt_str(o: &Option<String>) -> (r: Json)
    ensures
        match *o {
            Some(s) => r matches Json::Str(t) && t@ == s@,
            None => r == Json::Null,
        },
{
    match o {
        Some(s) => Json::Str(s.clone()),
        None => Json::Null,
    }
}

/// A POST to the relay: where, with which token, and the body.
#[derive(Debug)]
pub struct RelayDispatch {
    pub relay_url: String,
    pub relay_auth_token: Option<String>,
    pub payload: Json,
}

/// How many times a relay POST is sent at most: once, and three retries.
pub const RELAY_ATTEMPTS: usize = 4;

/// The delay before the retry that follows attempt `attempt` (from 0) of a
/// relay POST, in milliseconds: 250, 1000, then 3000; none after the fourth.
pub open spec fn relay_delay(attempt: nat) -> Option<u64> {
    if attempt == 0 {
        Some(250)
    } else if attempt == 1 {
        Some(1_000)
    } else if attempt == 2 {
        Some(3_000)
    } else {
        None
    }
}

/// What follows attempt `attempt` (from 0) of a relay POST: `None` when it
/// succeeded or was the last; else the delay before the next attempt.
pub fn relay_retry_delay_ms(attempt: usize, succeeded: bool) -> (r: Option<u64>)
    ensures
        succeeded ==> r is None,
        !succeeded ==> r == relay_delay(attempt as nat),
{
    if succeeded {
        None
    } else if attempt == 0 {
        Some(250)
    } else if attempt == 1 {
        Some(1_000)
    } else if attempt == 2 {
        Some(3_000)
    } else {
        None
    }
}

/// What the relay is told of a device: its id, platform, token and label.
pub open spec fn device_entry(j: Json, d: PushDeviceRegistration) -> bool {
    &&& ostr(jget(j, "deviceId"@)) == Some(d.device_id@)
    &&& ostr(jget(j, "platform"@)) == Some(d.platform@)
    &&& ostr(jget(j, "token"@)) == Some(d.token@)
    &&& ostr(jget(j, "label"@)) == opt_view(d.label)
}

fn relay_device(d: &PushDeviceRegistration) -> (r: Json)
    ensures
        device_entry(r, *d),
{
    proof {
        reveal_strlit("deviceId");
        reveal_strlit("platform");
        reveal_strlit("token");
        reveal_strlit("label");
    }
    let mut f: Vec<(String, Json)> = Vec::new();
    f.push(("deviceId".to_owned(), Json::Str(d.device_id.clone())));
    f.push(("platform".to_owned(), Json::Str(d.platform.clone())));
    f.push(("token".to_owned(), Json::Str(d.token.clone())));
    f.push(("label".to_owned(), json_opt_str(&d.label)));
    proof {
        let fs = f@;
        assert(fs[0].0@.len() != "token"@.len() && fs[1].0@.len() != "token"@.len());
        assert(fs[0].0@.len() != "label"@.len() && fs[1].0@.len() != "label"@.len() && fs[2].0@[0] != "label"@[0]);
        assert(fs[0].0@[0] != "platform"@[0]);
        crate::table::lemma_lookup_at(fs, "deviceId"@, 0);
        crate::table::lemma_lookup_at(fs, "platform"@, 1);
        crate::table::lemma_lookup_at(fs, "token"@, 2);
        crate::table::lemma_lookup_at(fs, "label"@, 3);
    }
    Json::Object(f)
}

impl PreparedDelivery {
    /// The relay POST for this delivery, when a relay is configured: its
    /// body names the event and lists every device with id, platform, token
    /// and label.
    pub fn into_relay_dispatch(self) -> (r: Option<RelayDispatch>)
        ensures
            self.relay_url is None <==> r is None,
            r matches Some(d) ==> {
                &&& Some(d.relay_url) == self.relay_url
                &&& d.relay_auth_token == self.relay_auth_token
                &&& jget(d.payload, "kind"@) matches Some(Json::Str(k)) && k@ == kind_name(self.event.kind)
                &&& jget(d.payload, "workspaceId"@) matches Some(Json::Str(w)) && w@ == self.event.workspace_id@
                &&& jget(d.payload, "threadId"@) matches Some(Json::Str(t)) && t@ == self.event.thread_id@
                &&& jget(d.payload, "title"@) matches Some(Json::Str(t)) && t@ == self.title@
                &&& jget(d.payload, "body"@) matches Some(Json::Str(b)) && b@ == self.body@
                &&& jget(d.payload, "timestampMs"@) == Some(json_int(self.timestamp_ms))
                &&& ostr(jget(d.payload, "turnId"@)) == opt_view(self.event.turn_id)
                &&& self.event.turn_id is None ==> jget(d.payload, "turnId"@) == Some(Json::Null)
                &&& ostr(jget(d.payload, "preview"@)) == Some(self.event.preview@)
                &&& jget(d.payload, "devices"@) matches Some(Json::Array(ds)) && ds@.len() == self.devices@.len()
                    && forall|i: int| 0 <= i < ds@.len() ==> #[trigger] device_entry(ds@[i], self.devices@[i])
            },
    {
        let relay_url = match self.relay_url {
            Some(u) => u,
            None => return None,
        };
        let mut devices: Vec<Json> = Vec::new();
        let mut i: usize = 0;
        while i < self.devices.len()
            invariant
                i <= self.devices@.len(),
                devices@.len() == i,
                forall|k: int| 0 <= k < i ==> #[trigger] device_entry(devices@[k], self.devices@[k]),
            decreases self.devices.len() - i,
        {
            devices.push(relay_device(&self.devices[i]));
            i = i + 1;
        }
        let ndev = devices.len();
        let mut fields: Vec<(String, Json)> = Vec::new();
        fields.push(("kind".to_owned(), Json::string(self.event.kind.as_str())));
        fields.push(("workspaceId".to_owned(), Json::Str(self.event.workspace_id.clone())));
        fields.push(("threadId".to_owned(), Json::Str(self.event.thread_id.clone())));
        fields.push(("turnId".to_owned(), json_opt_str(&self.event.turn_id)));
        fields.push(("title".to_owned(), Json::Str(self.title.clone())));
        fields.push(("body".to_owned(), Json::Str(self.body.clone())));
        fields.push(("preview".to_owned(), Json::Str(self.event.preview.clone())));
        fields.push(("timestampMs".to_owned(), json_i64(self.timestamp_ms)));
        fields.push(("devices".to_owned(), Json::Array(devices)));
        proof {
            reveal_strlit("kind");
            reveal_strlit("workspaceId");
            reveal_strlit("threadId");
            reveal_strlit("turnId");
            reveal_strlit("title");
            reveal_strlit("body");
            reveal_strlit("preview");
            reveal_strlit("timestampMs");
            reveal_strlit("devices");
            let fs = fields@;
            assert(fs[2].0@[1] != "workspaceId"@[1]);
            assert(fs[3].0@[1] != "threadId"@[1]);
            assert(fs[4].0@[2] != "threadId"@[2]);
            assert(fs[3].0@[1] != "timestampMs"@[1]);
            assert(fs[2].0@[1] != "timestampMs"@[1]);
            assert(fs[0].0@[0] != "body"@[0]);
            assert(fs[1].0@[0] != "timestampMs"@[0]);
            assert(fs[6].0@[0] != "devices"@[0]);
            crate::table::lemma_lookup_at(fs, "kind"@, 0);
            crate::table::lemma_lookup_at(fs, "workspaceId"@, 1);
            crate::table::lemma_lookup_at(fs, "threadId"@, 2);
            crate::table::lemma_lookup_at(fs, "title"@, 4);
            crate::table::lemma_lookup_at(fs, "body"@, 5);
            assert(fs[0].0@.len() != "turnId"@.len() && fs[1].0@.len() != "turnId"@.len()
                && fs[2].0@.len() != "turnId"@.len());
            assert(fs[0].0@.len() != "preview"@.len() && fs[1].0@.len() != "preview"@.len()
                && fs[2].0@.len() != "preview"@.len() && fs[3].0@.len() != "preview"@.len()
                && fs[4].0@.len() != "preview"@.len() && fs[5].0@.len() != "preview"@.len());
            crate::table::lemma_lookup_at(fs, "turnId"@, 3);
            crate::table::lemma_lookup_at(fs, "preview"@, 6);
            crate::table::lemma_lookup_at(fs, "timestampMs"@, 7);
            crate::table::lemma_lookup_at(fs, "devices"@, 8);
        }
        Some(RelayDispatch {
            relay_url,
            relay_auth_token: self.relay_auth_token,
            payload: Json::Object(fields),
        })
    }
}

/// Whether FCM takes pushes for a device of this platform.
pub open spec fn fcm_platform(p: Seq<char>) -> bool {
    p == "android"@ || p == "ios"@
}

/// The FCM message for one device of a delivery, or none when FCM does not
/// serve the device's platform: the device token, the title and body, and
/// the event's fields as data, the timestamp written in decimal.
pub fn fcm_message(delivery: &PreparedDelivery, device: &PushDeviceRegistration) -> (r: Option<Json>)
    ensures
        r is Some <==> fcm_platform(device.platform@),
        r matches Some(m) ==> ({
            let inner = jget(m, "message"@);
            let data = oget(inner, "data"@);
            let note = oget(inner, "notification"@);
            &&& ostr(oget(inner, "token"@)) == Some(device.token@)
            &&& ostr(oget(note, "title"@)) == Some(delivery.title@)
            &&& ostr(oget(note, "body"@)) == Some(delivery.body@)
            &&& ostr(oget(data, "kind"@)) == Some(kind_name(delivery.event.kind))
            &&& ostr(oget(data, "workspaceId"@)) == Some(delivery.event.workspace_id@)
            &&& ostr(oget(data, "threadId"@)) == Some(delivery.event.thread_id@)
            &&& ostr(oget(data, "timestampMs"@)) == Some(crate::text::decimal(delivery.timestamp_ms as int))
            &&& ostr(oget(data, "turnId"@)) == opt_view(delivery.event.turn_id)
            &&& (oget(data, "turnId"@) is Some <==> delivery.event.turn_id is Some)
            &&& ostr(oget(oget(inner, "android"@), "priority"@)) == Some("HIGH"@)
        }),
{
    proof {
        reveal_strlit("kind");
        reveal_strlit("workspaceId");
        reveal_strlit("threadId");
        reveal_strlit("timestampMs");
        reveal_strlit("turnId");
        reveal_strlit("title");
        reveal_strlit("body");
        reveal_strlit("token");
        reveal_strlit("notification");
        reveal_strlit("data");
        reveal_strlit("android");
        reveal_strlit("priority");
        reveal_strlit("message");
    }
    if !str_eq(device.platform.as_str(), "android") && !str_eq(device.platform.as_str(), "ios") {
        return None;
    }
    let mut data: Vec<(String, Json)> = Vec::new();
    data.push(("kind".to_owned(), Json::string(delivery.event.kind.as_str())));
    data.push(("workspaceId".to_owned(), Json::Str(delivery.event.workspace_id.clone())));
    data.push(("threadId".to_owned(), Json::Str(delivery.event.thread_id.clone())));
    data.push(("timestampMs".to_owned(), Json::Str(crate::text::decimal_string(delivery.timestamp_ms))));
    proof {
        let fs = data@;
        assert(fs[1].0@[0] != "timestampMs"@[0]);
        assert(fs[0].0@.len() != "turnId"@.len() && fs[1].0@.len() != "turnId"@.len()
            && fs[2].0@.len() != "turnId"@.len() && fs[3].0@.len() != "turnId"@.len());
        crate::table::lemma_lookup_at(fs, "kind"@, 0);
        crate::table::lemma_lookup_at(fs, "workspaceId"@, 1);
        crate::table::lemma_lookup_at(fs, "threadId"@, 2);
        crate::table::lemma_lookup_at(fs, "timestampMs"@, 3);
        crate::table::lemma_lookup_none(fs, "turnId"@);
    }
    let ghost before = data@;
    match &delivery.event.turn_id {
        Some(turn_id) => {
            data.push(("turnId".to_owned(), Json::Str(turn_id.clone())));
            proof {
                crate::table::lemma_lookup_push(before, data@[4], "kind"@);
                crate::table::lemma_lookup_push(before, data@[4], "workspaceId"@);
                crate::table::lemma_lookup_push(before, data@[4], "threadId"@);
                crate::table::lemma_lookup_push(before, data@[4], "timestampMs"@);
                crate::table::lemma_lookup_push(before, data@[4], "turnId"@);
                assert(data@ == before.push(data@[4]));
            }
        },
        None => {},
    }
    let mut notification: Vec<(String, Json)> = Vec::new();
    notification.push(("title".to_owned(), Json::Str(delivery.title.clone())));
    notification.push(("body".to_owned(), Json::Str(delivery.body.clone())));
    proof {
        assert(notification@[0].0@.len() != "body"@.len());
        crate::table::lemma_lookup_at(notification@, "title"@, 0);
        crate::table::lemma_lookup_at(notification@, "body"@, 1);
    }
    let mut android: Vec<(String, Json)> = Vec::new();
    android.push(("priority".to_owned(), Json::string("HIGH")));
    proof {
        crate::table::lemma_lookup_at(android@, "priority"@, 0);
    }
    let mut inner: Vec<(String, Json)> = Vec::new();
    inner.push(("token".to_owned(), Json::Str(device.token.clone())));
    inner.push(("notification".to_owned(), Json::Object(notification)));
    inner.push(("data".to_owned(), Json::Object(data)));
    inner.push(("android".to_owned(), Json::Object(android)));
    proof {
        let fs = inner@;
        assert(fs[0].0@.len() != "data"@.len());
        assert(fs[0].0@.len() != "android"@.len() && fs[1].0@.len() != "android"@.len()
            && fs[2].0@.len() != "android"@.len());
        crate::table::lemma_lookup_at(fs, "token"@, 0);
        crate::table::lemma_lookup_at(fs, "notification"@, 1);
        crate::table::lemma_lookup_at(fs, "data"@, 2);
        crate::table::lemma_lookup_at(fs, "android"@, 3);
    }
    let mut outer: Vec<(String, Json)> = Vec::new();
    outer.push(("message".to_owned(), Json::Object(inner)));
    proof {
        crate::table::lemma_lookup_at(outer@, "message"@, 0);
    }
    Some(Json::Object(outer))
}

/// What a snapshot tells of a device: its id, platform, label, flag, last
/// sighting and a cut-down token.
pub open spec fn device_snapshot(j: Json, d: PushDeviceRegistration) -> bool {
    &&& ostr(jget(j, "deviceId"@)) == Some(d.device_id@)
    &&& ostr(jget(j, "platform"@)) == Some(d.platform@)
    &&& ostr(jget(j, "label"@)) == opt_view(d.label)
    &&& jget(j, "enabled"@) == Some(Json::Bool(d.enabled))
    &&& jget(j, "lastSeenAtMs"@) == Some(match d.last_seen_at_ms {
        Some(t) => json_int(t),
        None => Json::Null,
    })
    &&& ostr(jget(j, "tokenPreview"@)) == Some(token_preview(d.token@))
}

/// What a snapshot tells of a client's presence.
pub open spec fn presence_snapshot(j: Json, p: PresenceRecord) -> bool {
    &&& ostr(jget(j, "clientId"@)) == Some(p.client_id@)
    &&& ostr(jget(j, "clientKind"@)) == Some(p.client_kind@)
    &&& ostr(jget(j, "platform"@)) == opt_view(p.platform)
    &&& jget(j, "isSupported"@) == Some(Json::Bool(p.is_supported))
    &&& jget(j, "isFocused"@) == Some(Json::Bool(p.is_focused))
    &&& jget(j, "isAfk"@) == Some(Json::Bool(p.is_afk))
    &&& jget(j, "lastSeenAtMs"@) == Some(json_int(p.last_seen_at_ms))
    &&& jget(j, "activeWorkspaceIds"@) matches Some(Json::Array(ids)) && ids@.len()
        == p.active_workspace_ids@.len() && forall|i: int|
        0 <= i < ids@.len() ==> ostr(Some(#[trigger] ids@[i])) == Some(p.active_workspace_ids@[i]@)
}

fn snapshot_device(d: &PushDeviceRegistration) -> (r: Json)
    ensures
        device_snapshot(r, *d),
{
    let mut f: Vec<(String, Json)> = Vec::new();
    f.push(("deviceId".to_owned(), Json::Str(d.device_id.clone())));
    f.push(("platform".to_owned(), Json::Str(d.platform.clone())));
    f.push(("label".to_owned(), json_opt_str(&d.label)));
    f.push(("enabled".to_owned(), Json::Bool(d.enabled)));
    f.push(("lastSeenAtMs".to_owned(), match d.last_seen_at_ms {
        Some(t) => json_i64(t),
        None => Json::Null,
    }));
    f.push(("tokenPreview".to_owned(), Json::Str(redact_token_preview(d.token.as_str()))));
    proof {
        let fs = f@;
        reveal_strlit("deviceId");
        reveal_strlit("platform");
        reveal_strlit("label");
        reveal_strlit("enabled");
        reveal_strlit("lastSeenAtMs");
        reveal_strlit("tokenPreview");
        crate::table::lemma_lookup_at(fs, "deviceId"@, 0);
        assert(fs[0].0@[0] != "platform"@[0]);
        crate::table::lemma_lookup_at(fs, "platform"@, 1);
        assert(fs[0].0@.len() != "label"@.len());
        assert(fs[1].0@.len() != "label"@.len());
        crate::table::lemma_lookup_at(fs, "label"@, 2);
        assert(fs[0].0@.len() != "enabled"@.len());
        assert(fs[1].0@.len() != "enabled"@.len());
        assert(fs[2].0@.len() != "enabled"@.len());
        crate::table::lemma_lookup_at(fs, "enabled"@, 3);
        assert(fs[0].0@.len() != "lastSeenAtMs"@.len());
        assert(fs[1].0@.len() != "lastSeenAtMs"@.len());
        assert(fs[2].0@.len() != "lastSeenAtMs"@.len());
        assert(fs[3].0@.len() != "lastSeenAtMs"@.len());
        crate::table::lemma_lookup_at(fs, "lastSeenAtMs"@, 4);
        assert(fs[0].0@.len() != "tokenPreview"@.len());
        assert(fs[1].0@.len() != "tokenPreview"@.len());
        assert(fs[2].0@.len() != "tokenPreview"@.len());
        assert(fs[3].0@.len() != "tokenPreview"@.len());
        assert(fs[4].0@[0] != "tokenPreview"@[0]);
        crate::table::lemma_lookup_at(fs, "tokenPreview"@, 5);
    }
    Json::Object(f)
}

fn snapshot_presence(p: &PresenceRecord) -> (r: Json)
    ensures
        presence_snapshot(r, *p),
{
    let mut ids: Vec<Json> = Vec::new();
    let mut j: usize = 0;
    while j < p.active_workspace_ids.len()
        invariant
            j <= p.active_workspace_ids@.len(),
            ids@.len() == j,
            forall|i: int| 0 <= i < j ==> ostr(Some(#[trigger] ids@[i])) == Some(p.active_workspace_ids@[i]@),
        decreases p.active_workspace_ids.len() - j,
    {
        ids.push(Json::Str(p.active_workspace_ids[j].clone()));
        j = j + 1;
    }
    let mut f: Vec<(String, Json)> = Vec::new();
    f.push(("clientId".to_owned(), Json::Str(p.client_id.clone())));
    f.push(("clientKind".to_owned(), Json::Str(p.client_kind.clone())));
    f.push(("platform".to_owned(), json_opt_str(&p.platform)));
    f.push(("isSupported".to_owned(), Json::Bool(p.is_supported)));
    f.push(("isFocused".to_owned(), Json::Bool(p.is_focused)));
    f.push(("isAfk".to_owned(), Json::Bool(p.is_afk)));
    f.push(("activeWorkspaceIds".to_owned(), Json::Array(ids)));
    f.push(("lastSeenAtMs".to_owned(), json_i64(p.last_seen_at_ms)));
    proof {
        let fs = f@;
        reveal_strlit("clientId");
        reveal_strlit("clientKind");
        reveal_strlit("platform");
        reveal_strlit("isSupported");
        reveal_strlit("isFocused");
        reveal_strlit("isAfk");
        reveal_strlit("activeWorkspaceIds");
        reveal_strlit("lastSeenAtMs");
        crate::table::lemma_lookup_at(fs, "clientId"@, 0);
        assert(fs[0].0@.len() != "clientKind"@.len());
        crate::table::lemma_lookup_at(fs, "clientKind"@, 1);
        assert(fs[0].0@[0] != "platform"@[0]);
        assert(fs[1].0@.len() != "platform"@.len());
        crate::table::lemma_lookup_at(fs, "platform"@, 2);
        assert(fs[0].0@.len() != "isSupported"@.len());
        assert(fs[1].0@.len() != "isSupported"@.len());
        assert(fs[2].0@.len() != "isSupported"@.len());
        crate::table::lemma_lookup_at(fs, "isSupported"@, 3);
        assert(fs[0].0@.len() != "isFocused"@.len());
        assert(fs[1].0@.len() != "isFocused"@.len());
        assert(fs[2].0@.len() != "isFocused"@.len());
        assert(fs[3].0@.len() != "isFocused"@.len());
        crate::table::lemma_lookup_at(fs, "isFocused"@, 4);
        assert(fs[0].0@.len() != "isAfk"@.len());
        assert(fs[1].0@.len() != "isAfk"@.len());
        assert(fs[2].0@.len() != "isAfk"@.len());
        assert(fs[3].0@.len() != "isAfk"@.len());
        assert(fs[4].0@.len() != "isAfk"@.len());
        crate::table::lemma_lookup_at(fs, "isAfk"@, 5);
        assert(fs[0].0@.len() != "activeWorkspaceIds"@.len());
        assert(fs[1].0@.len() != "activeWorkspaceIds"@.len());
        assert(fs[2].0@.len() != "activeWorkspaceIds"@.len());
        assert(fs[3].0@.len() != "activeWorkspaceIds"@.len());
        assert(fs[4].0@.len() != "activeWorkspaceIds"@.len());
        assert(fs[5].0@.len() != "activeWorkspaceIds"@.len());
        crate::table::lemma_lookup_at(fs, "activeWorkspaceIds"@, 6);
        assert(fs[0].0@.len() != "lastSeenAtMs"@.len());
        assert(fs[1].0@.len() != "lastSeenAtMs"@.len());
        assert(fs[2].0@.len() != "lastSeenAtMs"@.len());
        assert(fs[3].0@.len() != "lastSeenAtMs"@.len());
        assert(fs[4].0@.len() != "lastSeenAtMs"@.len());
        assert(fs[5].0@.len() != "lastSeenAtMs"@.len());
        assert(fs[6].0@.len() != "lastSeenAtMs"@.len());
        crate::table::lemma_lookup_at(fs, "lastSeenAtMs"@, 7);
    }
    Json::Object(f)
}

impl PushBrokerState {
    /// The broker's state as it may be shown, as of `now_ms` (stale entries
    /// are dropped first): the configuration, each device with its token cut
    /// down, and each client's presence.
    pub fn state_snapshot(&mut self, now_ms: i64) -> (r: Json)
        requires
            old(self).wf(),
        ensures
            final(self).wf(),
            final(self).fresh_at(now_ms),
            forall|q: Seq<char>| #[trigger] final(self).presence_by_client.at(q) == (match old(self).presence_by_client.at(q) {
                Some(p) => if presence_fresh(p, now_ms) { Some(p) } else { None },
                None => None,
            }),
            final(self).devices == old(self).devices,
            final(self).relay_url == old(self).relay_url,
            final(self).relay_auth_token == old(self).relay_auth_token,
            jget(r, "devices"@) matches Some(Json::Array(ds)) && ds@.len() == final(self).devices.entries@.len()
                && forall|i: int| 0 <= i < ds@.len() ==> #[trigger] device_snapshot(ds@[i], final(self).devices.entries@[i].1),
            jget(r, "presence"@) matches Some(Json::Array(ps)) && ps@.len()
                == final(self).presence_by_client.entries@.len() && forall|i: int|
                0 <= i < ps@.len() ==> #[trigger] presence_snapshot(ps@[i], final(self).presence_by_client.entries@[i].1),
            ({
                let c = jget(r, "config"@);
                &&& ostr(oget(c, "relayUrl"@)) == opt_view(final(self).relay_url)
                &&& oget(c, "hasRelayAuthToken"@) == Some(Json::Bool(final(self).relay_auth_token matches Some(t) && trimmed(t@).len() > 0))
                &&& oget(c, "registeredDeviceCount"@) == Some(Json::UInt(final(self).devices.entries@.len() as u64))
            }),
    {
        prune_stale_entries(self, now_ms);
        let mut devices: Vec<Json> = Vec::new();
        let mut i: usize = 0;
        while i < self.devices.entries.len()
            invariant
                i <= self.devices.entries@.len(),
                devices@.len() == i,
                forall|k: int| 0 <= k < i ==> #[trigger] device_snapshot(devices@[k], self.devices.entries@[k].1),
            decreases self.devices.entries.len() - i,
        {
            devices.push(snapshot_device(&self.devices.entries[i].1));
            i = i + 1;
        }
        let mut presence: Vec<Json> = Vec::new();
        let mut i: usize = 0;
        while i < self.presence_by_client.entries.len()
            invariant
                i <= self.presence_by_client.entries@.len(),
                presence@.len() == i,
                forall|k: int| 0 <= k < i ==> #[trigger] presence_snapshot(presence@[k], self.presence_by_client.entries@[k].1),
            decreases self.presence_by_client.entries.len() - i,
        {
            presence.push(snapshot_presence(&self.presence_by_client.entries[i].1));
            i = i + 1;
        }
        let config = self.config_snapshot();
        let mut c: Vec<(String, Json)> = Vec::new();
        c.push(("relayUrl".to_owned(), json_opt_str(&config.relay_url)));
        c.push(("hasRelayAuthToken".to_owned(), Json::Bool(config.has_relay_auth_token)));
        c.push(("registeredDeviceCount".to_owned(), Json::UInt(config.registered_device_count as u64)));
        proof {
            let fs = c@;
            reveal_strlit("relayUrl");
            reveal_strlit("hasRelayAuthToken");
            reveal_strlit("registeredDeviceCount");
            crate::table::lemma_lookup_at(fs, "relayUrl"@, 0);
            assert(fs[0].0@.len() != "hasRelayAuthToken"@.len());
            crate::table::lemma_lookup_at(fs, "hasRelayAuthToken"@, 1);
            assert(fs[0].0@.len() != "registeredDeviceCount"@.len());
            assert(fs[1].0@.len() != "registeredDeviceCount"@.len());
            crate::table::lemma_lookup_at(fs, "registeredDeviceCount"@, 2);
        }
        let mut fields: Vec<(String, Json)> = Vec::new();
        fields.push(("config".to_owned(), Json::Object(c)));
        fields.push(("devices".to_owned(), Json::Array(devices)));
        fields.push(("presence".to_owned(), Json::Array(presence)));
        proof {
            let fs = fields@;
            reveal_strlit("config");
            reveal_strlit("devices");
            reveal_strlit("presence");
            crate::table::lemma_lookup_at(fs, "config"@, 0);
            assert(fs[0].0@.len() != "devices"@.len());
            crate::table::lemma_lookup_at(fs, "devices"@, 1);
            assert(fs[0].0@.len() != "presence"@.len());
            assert(fs[1].0@.len() != "presence"@.len());
            crate::table::lemma_lookup_at(fs, "presence"@, 2);
        }
        Json::Object(fields)
    }
}

} // verus!
