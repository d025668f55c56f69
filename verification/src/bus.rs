//! The Agent Bus call state machine: request → policy → run now, or park
//! for the user's confirmation → confirm/deny/expire → run; and the undo
//! of the last journaled action. The bus itself performs the outside
//! work (ledger appends, dispatch to the app, the journal store); the
//! decisions are made here.

use crate::journal::{resolve_undo, spec_resolve_undo, JournalEntry};
use crate::json::{copy_json, fields_view, num_u64, object, str_array, str_values, u64_value, JValue, Json, JsonNumber};
use crate::ledger::{input_hash, preview_of, spec_input_hash, spec_preview};
use crate::manifest::{
    args_problem, chain_trusted, check_args, confirmation_name, spec_chain_trusted, spec_resolve, tier_name,
    Confirmation, Resolution, Tier, ToolDecl, UndoDecl, resolve,
};
use crate::text::{decimal, owned, u64_to_decimal};
use std::collections::HashMap;
use vstd::prelude::*;

verus! {

/// How long a parked confirmation stays answerable, in milliseconds.
pub const CONFIRMATION_TTL_MS: u64 = 120000;

/// A tool invocation as requested by a client of the bus.
pub struct CallRequest {
    /// Identity of the requesting client.
    pub actor: String,
    /// Target app (manifest `app_id`).
    pub app_id: String,
    pub tool: String,
    pub args: Json,
    /// The provenance of everything in the trigger chain, rendered.
    pub chain: Vec<String>,
}

/// What the policy says of a fresh request.
pub enum Admission {
    /// Refused without dispatch; `status` is the ledger status.
    Denied { status: &'static str, reason: String },
    /// Runs at once (a read-tier tool behind a trusted chain).
    Run(Resolution),
    /// Waits for the user.
    Confirm(Resolution),
}

/// `unknown tool {app}/{tool}`.
pub open spec fn unknown_tool_reason(app: Seq<char>, tool: Seq<char>) -> Seq<char> {
    "unknown tool "@ + app + "/"@ + tool
}

/// `args rejected by input_schema: {e}`.
pub open spec fn invalid_args_reason(e: Seq<char>) -> Seq<char> {
    "args rejected by input_schema: "@ + e
}

/// Decide a fresh request: unknown tools and arguments the tool's schema
/// rejects are denied; otherwise the tier policy, with the trust of the
/// request's own trigger chain, decides between running and asking.
pub fn admission(decl: Option<&ToolDecl>, req: &CallRequest) -> (a: Admission)
    ensures
        decl is None ==> (a matches Admission::Denied { status, reason } && status@ == "unknown-tool"@
            && reason@ == unknown_tool_reason(req.app_id@, req.tool@)),
        decl matches Some(d) ==> match args_problem(d.input_schema, req.args) {
            Some(e) => a matches Admission::Denied { status, reason } && status@ == "invalid-args"@
                && reason@ == invalid_args_reason(e),
            None => {
                let r = spec_resolve(d.tier, spec_chain_trusted(req.chain@));
                if r.confirmation == Confirmation::Silent {
                    a == Admission::Run(r)
                } else {
                    a == Admission::Confirm(r)
                }
            },
        },
{
    let d = match decl {
        Some(d) => d,
        None => {
            let mut reason = owned("unknown tool ");
            reason.append(req.app_id.as_str());
            reason.append("/");
            reason.append(req.tool.as_str());
            return Admission::Denied { status: "unknown-tool", reason };
        },
    };
    if let Err(e) = check_args(&d.input_schema, &req.args) {
        let mut reason = owned("args rejected by input_schema: ");
        reason.append(e.as_str());
        return Admission::Denied { status: "invalid-args", reason };
    }
    let r = resolve(d.tier, chain_trusted(&req.chain));
    match r.confirmation {
        Confirmation::Silent => Admission::Run(r),
        _ => Admission::Confirm(r),
    }
}

/// What the bus writes to the ledger around a call, but for the policy
/// detail document (`detail_json`) and the ids the ledger assigns.
pub struct BusEntry {
    pub kind: &'static str,
    pub input_hash: String,
    pub preview: String,
    pub status: &'static str,
    pub ref_id: Option<i64>,
}

/// The `tool.call` entry written before anything else happens to a
/// request; `args_text` is the arguments' JSON text.
pub fn call_entry(req: &CallRequest, args_text: &str) -> (e: BusEntry)
    ensures
        e.kind@ == "tool.call"@,
        e.input_hash@ == spec_input_hash(args_text@),
        e.preview@ == spec_preview(req.app_id@ + "/"@ + req.tool@ + " "@ + args_text@),
        e.status@ == "started"@,
        e.ref_id is None,
{
    let mut p = owned(req.app_id.as_str());
    p.append("/");
    p.append(req.tool.as_str());
    p.append(" ");
    p.append(args_text);
    BusEntry { kind: "tool.call", input_hash: input_hash(args_text), preview: preview_of(p.as_str()), status: "started", ref_id: None }
}

/// The `tool.deny` entry of a refused request (`status` says why: an
/// unknown tool, invalid arguments, the user's no, expiry).
pub fn deny_entry(req: &CallRequest, args_text: &str, ref_id: Option<i64>, status: &'static str, reason: &str) -> (e:
    BusEntry)
    ensures
        e.kind@ == "tool.deny"@,
        e.input_hash@ == spec_input_hash(args_text@),
        e.preview@ == spec_preview(req.app_id@ + "/"@ + req.tool@ + ": "@ + reason@),
        e.status == status,
        e.ref_id == ref_id,
{
    let mut p = owned(req.app_id.as_str());
    p.append("/");
    p.append(req.tool.as_str());
    p.append(": ");
    p.append(reason);
    BusEntry { kind: "tool.deny", input_hash: input_hash(args_text), preview: preview_of(p.as_str()), status, ref_id }
}

/// The `tool.undo` entry written before a compensation is dispatched.
pub fn undo_entry(app_id: &str, tool: &str, undo_tool: &str, undo_args_json: &str, ledger_ref: i64) -> (e: BusEntry)
    ensures
        e.kind@ == "tool.undo"@,
        e.input_hash@ == spec_input_hash(undo_args_json@),
        e.preview@ == spec_preview("undo "@ + app_id@ + "/"@ + tool@ + " via "@ + undo_tool@),
        e.status@ == "started"@,
        e.ref_id == Some(ledger_ref),
{
    let mut p = owned("undo ");
    p.append(app_id);
    p.append("/");
    p.append(tool);
    p.append(" via ");
    p.append(undo_tool);
    BusEntry {
        kind: "tool.undo",
        input_hash: input_hash(undo_args_json),
        preview: preview_of(p.as_str()),
        status: "started",
        ref_id: Some(ledger_ref),
    }
}

/// The `tool.confirm` entry of an approved call, under its start entry.
pub fn confirm_entry(req: &CallRequest, confirmation: Confirmation, start_ref: i64) -> (e: BusEntry)
    ensures
        e.kind@ == "tool.confirm"@,
        e.input_hash@ == Seq::<char>::empty(),
        e.preview@ == spec_preview(confirmation_name(confirmation) + " approved "@ + req.app_id@ + "/"@
            + req.tool@),
        e.status@ == "ok"@,
        e.ref_id == Some(start_ref),
{
    let mut p = owned(confirmation.as_str());
    p.append(" approved ");
    p.append(req.app_id.as_str());
    p.append("/");
    p.append(req.tool.as_str());
    BusEntry {
        kind: "tool.confirm",
        input_hash: String::new(),
        preview: preview_of(p.as_str()),
        status: "ok",
        ref_id: Some(start_ref),
    }
}

/// The `tool.complete` entry closing the call (or compensation) started
/// as `start_ref`: `ok` with a preview of the result text, or `error`
/// with a preview of the error.
pub fn complete_entry(start_ref: i64, outcome: Result<&str, &str>) -> (e: BusEntry)
    ensures
        e.kind@ == "tool.complete"@,
        e.input_hash@ == Seq::<char>::empty(),
        outcome matches Ok(t) ==> e.status@ == "ok"@ && e.preview@ == spec_preview(t@),
        outcome matches Err(m) ==> e.status@ == "error"@ && e.preview@ == spec_preview(m@),
        e.ref_id == Some(start_ref),
{
    let (status, text) = match outcome {
        Ok(t) => ("ok", t),
        Err(m) => ("error", m),
    };
    BusEntry {
        kind: "tool.complete",
        input_hash: String::new(),
        preview: preview_of(text),
        status,
        ref_id: Some(start_ref),
    }
}

/// The `tool.undo` entry of an action without compensation, skipped so the
/// next undo reaches the one below it.
pub fn skip_entry(app_id: &str, tool: &str, ledger_ref: i64) -> (e: BusEntry)
    ensures
        e.kind@ == "tool.undo"@,
        e.input_hash@ == Seq::<char>::empty(),
        e.preview@ == spec_preview(app_id@ + "/"@ + tool@ + " is not undoable — skipped"@),
        e.status@ == "skipped"@,
        e.ref_id == Some(ledger_ref),
{
    let mut p = owned(app_id);
    p.append("/");
    p.append(tool);
    p.append(" is not undoable — skipped");
    BusEntry {
        kind: "tool.undo",
        input_hash: String::new(),
        preview: preview_of(p.as_str()),
        status: "skipped",
        ref_id: Some(ledger_ref),
    }
}

/// The D-Bus disposition reported for a confirmation level.
pub open spec fn spec_disposition(c: Confirmation) -> Seq<char> {
    match c {
        Confirmation::Silent => "executed"@,
        Confirmation::Chip => "confirm-chip"@,
        Confirmation::Modal => "confirm-modal"@,
    }
}

pub fn disposition_of(confirmation: Confirmation) -> (s: &'static str)
    ensures
        s@ == spec_disposition(confirmation),
{
    match confirmation {
        Confirmation::Silent => "executed",
        Confirmation::Chip => "confirm-chip",
        Confirmation::Modal => "confirm-modal",
    }
}

/// A call waiting for the user's answer.
pub struct Parked {
    pub request: CallRequest,
    pub tier: Tier,
    pub undo: Option<UndoDecl>,
    pub resolution: Resolution,
    /// Ledger id of the call's `tool.call` entry.
    pub start_ref: i64,
    /// When it was parked (monotonic milliseconds).
    pub parked_ms: u64,
}

/// The user's answer to a parked call, decided.
pub enum Answer {
    /// Too late: refused (ledger status `expired`).
    Expired(Parked),
    /// Refused by the user (ledger status `denied`).
    Denied(Parked),
    /// Approved: run it.
    Approved(Parked),
}

/// Parked calls by id, and the next id to hand out.
pub struct BusState {
    pending: HashMap<u64, Parked>,
    next_id: u64,
}

/// Whether a call parked at `parked_ms` is stale at `now_ms`.
pub open spec fn expired(parked_ms: u64, now_ms: u64) -> bool {
    now_ms > parked_ms && now_ms - parked_ms > CONFIRMATION_TTL_MS
}

impl BusState {
    /// The parked calls, by call id.
    pub closed spec fn parked(&self) -> Map<u64, Parked> {
        self.pending@
    }

    /// The id the next request receives.
    pub closed spec fn next(&self) -> u64 {
        self.next_id
    }

    pub fn new() -> (s: BusState)
        ensures
            s.parked() == Map::<u64, Parked>::empty(),
            s.next() == 1,
    {
        BusState { pending: HashMap::new(), next_id: 1 }
    }

    /// Hand out a call id (ids count up from 1, wrapping at the top).
    pub fn next_call_id(&mut self) -> (id: u64)
        ensures
            id == old(self).next(),
            final(self).next() == (if id == u64::MAX {
                0
            } else {
                (id + 1) as u64
            }),
            final(self).parked() == old(self).parked(),
    {
        let id = self.next_id;
        self.next_id = if id == u64::MAX {
            0
        } else {
            id + 1
        };
        id
    }

    /// Number of parked calls.
    pub fn pending_count(&self) -> (n: usize)
        ensures
            n == self.parked().len(),
    {
        proof {
            broadcast use vstd::std_specs::hash::group_hash_axioms;
        }
        self.pending.len()
    }

    /// Park `call` under `call_id` (replacing any call parked under it).
    pub fn park(&mut self, call_id: u64, call: Parked)
        ensures
            final(self).parked() == old(self).parked().insert(call_id, call),
            final(self).next() == old(self).next(),
    {
        proof {
            broadcast use vstd::std_specs::hash::group_hash_axioms;
        }
        self.pending.insert(call_id, call);
    }

    /// Answer the call parked under `call_id` at time `now_ms`: it leaves
    /// the parked set whatever the answer, so a second answer finds
    /// nothing. A stale call is refused as expired before the answer is
    /// looked at. `Err(call_id)` when nothing is parked under it.
    pub fn answer(&mut self, call_id: u64, approve: bool, now_ms: u64) -> (r: Result<Answer, u64>)
        ensures
            !old(self).parked().contains_key(call_id) ==> r == Err::<Answer, u64>(call_id)
                && final(self).parked() == old(self).parked(),
            old(self).parked().contains_key(call_id) ==> final(self).parked() == old(
                self,
            ).parked().remove(call_id) && match r {
                Ok(Answer::Expired(p)) => p == old(self).parked()[call_id] && expired(
                    p.parked_ms,
                    now_ms,
                ),
                Ok(Answer::Denied(p)) => p == old(self).parked()[call_id] && !expired(
                    p.parked_ms,
                    now_ms,
                ) && !approve,
                Ok(Answer::Approved(p)) => p == old(self).parked()[call_id] && !expired(
                    p.parked_ms,
                    now_ms,
                ) && approve,
                Err(_) => false,
            },
            final(self).next() == old(self).next(),
    {
        proof {
            broadcast use vstd::std_specs::hash::group_hash_axioms;
        }
        let parked = match self.pending.remove(&call_id) {
            Some(p) => p,
            None => {
                assert(self.pending@ =~= old(self).pending@);
                return Err(call_id);
            },
        };
        let stale = now_ms > parked.parked_ms && now_ms - parked.parked_ms > CONFIRMATION_TTL_MS;
        if stale {
            Ok(Answer::Expired(parked))
        } else if !approve {
            Ok(Answer::Denied(parked))
        } else {
            Ok(Answer::Approved(parked))
        }
    }
}

/// What executing a call leaves for the undo journal: whether the call
/// is journaled (privileged tiers only), its resolved compensation, and
/// notes for the ledger.
pub struct Compensation {
    pub journal: bool,
    pub undo: Option<(String, Json)>,
    pub notes: Vec<String>,
}

pub open spec fn notes_view(v: Seq<String>) -> Seq<Seq<char>> {
    Seq::new(v.len(), |i: int| v[i]@)
}

/// Decide the journaling of an executed call of a `tier` tool declaring
/// `undo`, called with `args` and answered `result`.
pub fn compensation(tier: Tier, undo: &Option<UndoDecl>, args: &Json, result: &Json) -> (c:
    Compensation)
    ensures
        c.journal == (tier != Tier::Read),
        tier == Tier::Read ==> c.undo is None && c.notes@.len() == 0,
        tier != Tier::Read ==> match undo {
            None => c.undo is None && notes_view(c.notes@) == seq!["tool declares no undo"@],
            Some(u) => match spec_resolve_undo(u.map@, *args, *result) {
                Ok(fields) => c.undo is Some && c.undo->Some_0.0@ == u.tool@ && c.undo->Some_0.1@
                    == JValue::Object(fields) && c.notes@.len() == 0,
                Err(e) => c.undo is None && notes_view(c.notes@) == seq![
                    "undo not resolvable: "@ + e,
                ],
            },
        },
{
    let mut notes: Vec<String> = Vec::new();
    if !tier.is_privileged() {
        return Compensation { journal: false, undo: None, notes };
    }
    let resolved = match undo {
        Some(u) => match resolve_undo(u, args, result) {
            Ok(a) => Some((u.tool.clone(), a)),
            Err(e) => {
                let mut note = owned("undo not resolvable: ");
                note.append(e.as_str());
                notes.push(note);
                None
            },
        },
        None => {
            notes.push(owned("tool declares no undo"));
            None
        },
    };
    assert(notes_view(notes@) =~= (match undo {
        None => seq!["tool declares no undo"@],
        Some(u) => match spec_resolve_undo(u.map@, *args, *result) {
            Ok(_) => Seq::<Seq<char>>::empty(),
            Err(e) => seq!["undo not resolvable: "@ + e],
        },
    }));
    Compensation { journal: true, undo: resolved, notes }
}

/// What `undo` does about the newest active journal entry.
pub enum UndoPlan {
    /// The journal has no active entries.
    Nothing,
    /// The entry declared no compensation: mark it skipped.
    Skip { journal_id: i64, ledger_ref: i64, app_id: String, tool: String },
    /// Dispatch the compensation call.
    Dispatch {
        journal_id: i64,
        ledger_ref: i64,
        app_id: String,
        tool: String,
        undo_tool: String,
        undo_args_json: String,
    },
}

/// Plan the undo of the newest active entry: nothing to do, skip an
/// action without compensation, or dispatch its compensation.
pub fn plan_undo(entry: Option<JournalEntry>) -> (p: UndoPlan)
    ensures
        entry is None ==> p is Nothing,
        entry matches Some(e) ==> (if e.undo_tool is Some && e.undo_args_json is Some {
            p matches UndoPlan::Dispatch { journal_id, ledger_ref, app_id, tool, undo_tool, undo_args_json }
                && journal_id == e.id && ledger_ref == e.ledger_ref && app_id@ == e.app_id@
                && tool@ == e.tool@ && undo_tool@ == e.undo_tool->Some_0@ && undo_args_json@
                == e.undo_args_json->Some_0@
        } else {
            p matches UndoPlan::Skip { journal_id, ledger_ref, app_id, tool } && journal_id == e.id
                && ledger_ref == e.ledger_ref && app_id@ == e.app_id@ && tool@ == e.tool@
        }),
{
    match entry {
        None => UndoPlan::Nothing,
        Some(e) => match (e.undo_tool, e.undo_args_json) {
            (Some(undo_tool), Some(undo_args_json)) => UndoPlan::Dispatch {
                journal_id: e.id,
                ledger_ref: e.ledger_ref,
                app_id: e.app_id,
                tool: e.tool,
                undo_tool,
                undo_args_json,
            },
            _ => UndoPlan::Skip {
                journal_id: e.id,
                ledger_ref: e.ledger_ref,
                app_id: e.app_id,
                tool: e.tool,
            },
        },
    }
}

/// Result of an `undo` request.
pub enum UndoReport {
    /// Journal has no active entries.
    Nothing,
    /// The last action declared no compensation; it is skipped so the
    /// next undo reaches the action below it.
    NotUndoable { app_id: String, tool: String },
    /// Compensation dispatched successfully.
    Undone { app_id: String, tool: String, undo_tool: String, result: Json },
    /// Compensation dispatch failed; the entry stays active for retry.
    Failed { app_id: String, undo_tool: String, error: String },
}

/// The report of a dispatched compensation, and whether the journal
/// entry leaves the active stack (only on success).
pub fn undo_outcome(app_id: String, tool: String, undo_tool: String, dispatched: Result<
    Json,
    String,
>) -> (r: (UndoReport, bool))
    ensures
        dispatched is Ok ==> r.1 && (r.0 matches UndoReport::Undone { app_id: a, tool: t, undo_tool: u, result }
            && a@ == app_id@ && t@ == tool@ && u@ == undo_tool@ && result@
            == dispatched->Ok_0@),
        dispatched is Err ==> !r.1 && (r.0 matches UndoReport::Failed { app_id: a, undo_tool: u, error }
            && a@ == app_id@ && u@ == undo_tool@ && error@ == dispatched->Err_0@),
{
    match dispatched {
        Ok(result) => (UndoReport::Undone { app_id, tool, undo_tool, result }, true),
        Err(error) => (UndoReport::Failed { app_id, undo_tool, error }, false),
    }
}

fn field(k: &str, v: Json) -> (f: (String, Json))
    ensures
        f.0@ == k@,
        f.1@ == v@,
{
    (owned(k), v)
}

fn jstring(s: &str) -> (j: Json)
    ensures
        j@ == JValue::Str(s@),
{
    Json::Str(owned(s))
}

/// The policy detail the ledger stores with a call (keys in order).
pub open spec fn spec_detail(req: CallRequest, r: Resolution) -> JValue {
    JValue::Object(
        seq![
            ("chain"@, JValue::Array(str_values(req.chain@))),
            ("confirmation"@, JValue::Str(confirmation_name(r.confirmation))),
            ("effective_tier"@, JValue::Str(tier_name(r.effective))),
            ("escalated"@, JValue::Bool(r.escalated)),
            ("target"@, JValue::Str(req.app_id@)),
            ("tier"@, JValue::Str(tier_name(r.declared))),
            ("tool"@, JValue::Str(req.tool@)),
        ],
    )
}

pub fn detail_json(req: &CallRequest, r: &Resolution) -> (j: Json)
    ensures
        j@ == spec_detail(*req, *r),
{
    let mut f: Vec<(String, Json)> = Vec::new();
    f.push(field("chain", str_array(&req.chain)));
    f.push(field("confirmation", jstring(r.confirmation.as_str())));
    f.push(field("effective_tier", jstring(r.effective.as_str())));
    f.push(field("escalated", Json::Bool(r.escalated)));
    f.push(field("target", Json::Str(req.app_id.clone())));
    f.push(field("tier", jstring(r.declared.as_str())));
    f.push(field("tool", Json::Str(req.tool.clone())));
    let j = object(f);
    assert(fields_view(f@) =~= seq![
        ("chain"@, JValue::Array(str_values(req.chain@))),
        ("confirmation"@, JValue::Str(confirmation_name(r.confirmation))),
        ("effective_tier"@, JValue::Str(tier_name(r.effective))),
        ("escalated"@, JValue::Bool(r.escalated)),
        ("target"@, JValue::Str(req.app_id@)),
        ("tier"@, JValue::Str(tier_name(r.declared))),
        ("tool"@, JValue::Str(req.tool@)),
    ]);
    j
}

/// The typed-diff material shown with a parked call (keys in order).
pub open spec fn spec_confirmation_card(
    call_id: u64,
    req: CallRequest,
    decl: ToolDecl,
    r: Resolution,
) -> JValue {
    JValue::Object(
        seq![
            ("actor"@, JValue::Str(req.actor@)),
            ("app_id"@, JValue::Str(req.app_id@)),
            ("args"@, req.args@),
            ("call_id"@, u64_value(call_id)),
            ("chain"@, JValue::Array(str_values(req.chain@))),
            ("confirmation"@, JValue::Str(confirmation_name(r.confirmation))),
            ("description"@, JValue::Str(decl.description@)),
            ("effective_tier"@, JValue::Str(tier_name(r.effective))),
            ("escalated"@, JValue::Bool(r.escalated)),
            ("tier"@, JValue::Str(tier_name(r.declared))),
            ("tool"@, JValue::Str(decl.name@)),
            ("undoable"@, JValue::Bool(decl.undo is Some)),
        ],
    )
}

pub fn confirmation_card(call_id: u64, req: &CallRequest, decl: &ToolDecl, r: &Resolution) -> (j:
    Json)
    ensures
        j@ == spec_confirmation_card(call_id, *req, *decl, *r),
{
    let mut f: Vec<(String, Json)> = Vec::new();
    f.push(field("actor", Json::Str(req.actor.clone())));
    f.push(field("app_id", Json::Str(req.app_id.clone())));
    f.push(field("args", copy_json(&req.args)));
    f.push(field("call_id", num_u64(call_id)));
    f.push(field("chain", str_array(&req.chain)));
    f.push(field("confirmation", jstring(r.confirmation.as_str())));
    f.push(field("description", Json::Str(decl.description.clone())));
    f.push(field("effective_tier", jstring(r.effective.as_str())));
    f.push(field("escalated", Json::Bool(r.escalated)));
    f.push(field("tier", jstring(r.declared.as_str())));
    f.push(field("tool", Json::Str(decl.name.clone())));
    f.push(field("undoable", Json::Bool(decl.undo.is_some())));
    let j = object(f);
    assert(fields_view(f@) =~= seq![
        ("actor"@, JValue::Str(req.actor@)),
        ("app_id"@, JValue::Str(req.app_id@)),
        ("args"@, req.args@),
        ("call_id"@, u64_value(call_id)),
        ("chain"@, JValue::Array(str_values(req.chain@))),
        ("confirmation"@, JValue::Str(confirmation_name(r.confirmation))),
        ("description"@, JValue::Str(decl.description@)),
        ("effective_tier"@, JValue::Str(tier_name(r.effective))),
        ("escalated"@, JValue::Bool(r.escalated)),
        ("tier"@, JValue::Str(tier_name(r.declared))),
        ("tool"@, JValue::Str(decl.name@)),
        ("undoable"@, JValue::Bool(decl.undo is Some)),
    ]);
    j
}

/// A parked call is answered at most once: after any answer, nothing is
/// parked under its id.
pub proof fn lemma_answer_is_final(before: Map<u64, Parked>, id: u64)
    ensures
        !before.remove(id).contains_key(id),
{
}

/// What a request or a confirmation came to.
pub enum Outcome {
    /// Dispatched and completed.
    Executed { call_id: u64, ledger_ref: i64, result: Json },
    /// Dispatched and failed (already ledgered).
    Failed { call_id: u64, ledger_ref: i64, error: String },
    /// Parked; the user must answer. `spec` is the confirmation card.
    AwaitingConfirmation { call_id: u64, confirmation: Confirmation, escalated: bool, spec: Json },
    /// Refused without dispatch (unknown tool, invalid args, user
    /// denial, expiry).
    Denied { call_id: u64, reason: String },
}

/// The D-Bus reply for an outcome: the call id, its disposition and the
/// detail document.
pub open spec fn spec_outcome_reply(o: Outcome) -> (u64, Seq<char>, JValue) {
    match o {
        Outcome::Executed { call_id, ledger_ref, result } => (
            call_id,
            "executed"@,
            JValue::Object(seq![("ledger_ref"@, crate::notes::i64_value(ledger_ref)), ("result"@, result@)]),
        ),
        Outcome::Failed { call_id, ledger_ref, error } => (
            call_id,
            "failed"@,
            JValue::Object(seq![("error"@, JValue::Str(error@)), ("ledger_ref"@, crate::notes::i64_value(ledger_ref))]),
        ),
        Outcome::AwaitingConfirmation { call_id, confirmation, spec, .. } => (
            call_id,
            spec_disposition(confirmation),
            spec@,
        ),
        Outcome::Denied { call_id, reason } => (
            call_id,
            "denied"@,
            JValue::Object(seq![("reason"@, JValue::Str(reason@))]),
        ),
    }
}

pub fn outcome_reply(o: &Outcome) -> (r: (u64, String, Json))
    ensures
        (r.0, r.1@, r.2@) == spec_outcome_reply(*o),
{
    match o {
        Outcome::Executed { call_id, ledger_ref, result } => {
            let mut f: Vec<(String, Json)> = Vec::new();
            f.push(field("ledger_ref", crate::notes::num_i64(*ledger_ref)));
            f.push(field("result", copy_json(result)));
            assert(fields_view(f@) =~= seq![
                ("ledger_ref"@, crate::notes::i64_value(*ledger_ref)),
                ("result"@, result@),
            ]);
            (*call_id, owned("executed"), object(f))
        },
        Outcome::Failed { call_id, ledger_ref, error } => {
            let mut f: Vec<(String, Json)> = Vec::new();
            f.push(field("error", Json::Str(error.clone())));
            f.push(field("ledger_ref", crate::notes::num_i64(*ledger_ref)));
            assert(fields_view(f@) =~= seq![
                ("error"@, JValue::Str(error@)),
                ("ledger_ref"@, crate::notes::i64_value(*ledger_ref)),
            ]);
            (*call_id, owned("failed"), object(f))
        },
        Outcome::AwaitingConfirmation { call_id, confirmation, spec, .. } => {
            (*call_id, owned(disposition_of(*confirmation)), copy_json(spec))
        },
        Outcome::Denied { call_id, reason } => {
            let mut f: Vec<(String, Json)> = Vec::new();
            f.push(field("reason", Json::Str(reason.clone())));
            assert(fields_view(f@) =~= seq![("reason"@, JValue::Str(reason@))]);
            (*call_id, owned("denied"), object(f))
        },
    }
}

/// An undo report as the D-Bus surface writes it: the status tag first,
/// then the variant's fields in order.
pub open spec fn spec_undo_report(r: UndoReport) -> JValue {
    match r {
        UndoReport::Nothing => JValue::Object(seq![("status"@, JValue::Str("nothing"@))]),
        UndoReport::NotUndoable { app_id, tool } => JValue::Object(
            seq![
                ("status"@, JValue::Str("not-undoable"@)),
                ("app_id"@, JValue::Str(app_id@)),
                ("tool"@, JValue::Str(tool@)),
            ],
        ),
        UndoReport::Undone { app_id, tool, undo_tool, result } => JValue::Object(
            seq![
                ("status"@, JValue::Str("undone"@)),
                ("app_id"@, JValue::Str(app_id@)),
                ("tool"@, JValue::Str(tool@)),
                ("undo_tool"@, JValue::Str(undo_tool@)),
                ("result"@, result@),
            ],
        ),
        UndoReport::Failed { app_id, undo_tool, error } => JValue::Object(
            seq![
                ("status"@, JValue::Str("failed"@)),
                ("app_id"@, JValue::Str(app_id@)),
                ("undo_tool"@, JValue::Str(undo_tool@)),
                ("error"@, JValue::Str(error@)),
            ],
        ),
    }
}

pub fn undo_report_json(r: &UndoReport) -> (j: Json)
    ensures
        j@ == spec_undo_report(*r),
{
    let mut f: Vec<(String, Json)> = Vec::new();
    match r {
        UndoReport::Nothing => {
            f.push(field("status", jstring("nothing")));
            assert(fields_view(f@) =~= seq![("status"@, JValue::Str("nothing"@))]);
        },
        UndoReport::NotUndoable { app_id, tool } => {
            f.push(field("status", jstring("not-undoable")));
            f.push(field("app_id", Json::Str(app_id.clone())));
            f.push(field("tool", Json::Str(tool.clone())));
            assert(fields_view(f@) =~= seq![
                ("status"@, JValue::Str("not-undoable"@)),
                ("app_id"@, JValue::Str(app_id@)),
                ("tool"@, JValue::Str(tool@)),
            ]);
        },
        UndoReport::Undone { app_id, tool, undo_tool, result } => {
            f.push(field("status", jstring("undone")));
            f.push(field("app_id", Json::Str(app_id.clone())));
            f.push(field("tool", Json::Str(tool.clone())));
            f.push(field("undo_tool", Json::Str(undo_tool.clone())));
            f.push(field("result", copy_json(result)));
            assert(fields_view(f@) =~= seq![
                ("status"@, JValue::Str("undone"@)),
                ("app_id"@, JValue::Str(app_id@)),
                ("tool"@, JValue::Str(tool@)),
                ("undo_tool"@, JValue::Str(undo_tool@)),
                ("result"@, result@),
            ]);
        },
        UndoReport::Failed { app_id, undo_tool, error } => {
            f.push(field("status", jstring("failed")));
            f.push(field("app_id", Json::Str(app_id.clone())));
            f.push(field("undo_tool", Json::Str(undo_tool.clone())));
            f.push(field("error", Json::Str(error.clone())));
            assert(fields_view(f@) =~= seq![
                ("status"@, JValue::Str("failed"@)),
                ("app_id"@, JValue::Str(app_id@)),
                ("undo_tool"@, JValue::Str(undo_tool@)),
                ("error"@, JValue::Str(error@)),
            ]);
        },
    }
    object(f)
}

} // verus!
