//! The multi-turn coding agent. The loop owns the conversation; each
//! turn the backend either calls one tool or signals done, and the
//! verifier decides whether "done" is believed. This module holds the
//! loop's state machine: what is appended to the history after each
//! turn, and when the loop ends and with which report. The backend, the
//! tools' file access and the verifier's process are outside work.

use crate::forge_tools::ToolSpec;
use crate::json::{
    array, as_str, at, copy_json, field, fields_view, get, items_view, member, object, str_of, then_elem, then_member, JValue, Json,
};
use crate::text::{decimal, owned, u64_to_decimal};
use vstd::prelude::*;

verus! {

/// One tool invocation, decoded from a backend tool call.
pub struct ToolCall {
    pub id: String,
    pub name: String,
    pub args: Json,
}

impl Clone for ToolCall {
    fn clone(&self) -> (r: Self)
        ensures
            r.id@ == self.id@,
            r.name@ == self.name@,
            r.args@ == self.args@,
    {
        ToolCall { id: self.id.clone(), name: self.name.clone(), args: copy_json(&self.args) }
    }
}

#[derive(Debug, Clone, Copy, PartialEq, Eq, Structural)]
pub enum Role {
    System,
    User,
    Assistant,
    Tool,
}

/// One message of the agent conversation.
pub struct Message {
    pub role: Role,
    pub content: String,
    pub tool_call: Option<ToolCall>,
    pub tool_call_id: Option<String>,
}

impl Message {
    pub fn bare(role: Role, content: &str) -> (m: Message)
        ensures
            m.role == role,
            m.content@ == content@,
            m.tool_call is None,
            m.tool_call_id is None,
    {
        Message { role, content: owned(content), tool_call: None, tool_call_id: None }
    }

    pub fn system(content: &str) -> (m: Message)
        ensures
            m.role == Role::System,
            m.content@ == content@,
            m.tool_call is None,
            m.tool_call_id is None,
    {
        Message::bare(Role::System, content)
    }

    pub fn user(content: &str) -> (m: Message)
        ensures
            m.role == Role::User,
            m.content@ == content@,
            m.tool_call is None,
            m.tool_call_id is None,
    {
        Message::bare(Role::User, content)
    }

    pub fn assistant_text(content: &str) -> (m: Message)
        ensures
            m.role == Role::Assistant,
            m.content@ == content@,
            m.tool_call is None,
            m.tool_call_id is None,
    {
        Message::bare(Role::Assistant, content)
    }

    /// The assistant calling a tool (no text).
    pub fn assistant_call(call: ToolCall) -> (m: Message)
        ensures
            m.role == Role::Assistant,
            m.content@ == Seq::<char>::empty(),
            m.tool_call == Some(call),
            m.tool_call_id is None,
    {
        Message { role: Role::Assistant, content: String::new(), tool_call: Some(call), tool_call_id: None }
    }

    /// A tool's result, linked to the call that produced it.
    pub fn tool_result(call_id: &str, content: &str) -> (m: Message)
        ensures
            m.role == Role::Tool,
            m.content@ == content@,
            m.tool_call is None,
            m.tool_call_id matches Some(i) && i@ == call_id@,
    {
        Message { role: Role::Tool, content: owned(content), tool_call: None, tool_call_id: Some(owned(call_id)) }
    }
}

/// What the backend decided on a turn.
pub enum AgentAction {
    Call(ToolCall),
    Done(String),
}

/// How the loop decides the project is in a good state: `Dart` runs
/// `dart analyze`, `Command` any check (non-zero exit = findings), and
/// `NoCheck` trusts the model's done signal.
#[derive(Debug, Clone)]
pub enum Verifier {
    Dart,
    Command { program: String, args: Vec<String> },
    NoCheck,
}

impl Verifier {
    pub fn is_none(&self) -> (b: bool)
        ensures
            b == (*self is NoCheck),
    {
        matches!(self, Verifier::NoCheck)
    }
}

/// The findings of a failed verifier command.
pub fn command_findings(program: &str, status: &str, stdout: &str, stderr: &str) -> (s: String)
    ensures
        s@ == "`"@ + program@ + "` exited with "@ + status@ + "\n"@ + stdout@ + stderr@,
{
    let mut s = owned("`");
    s.append(program);
    s.append("` exited with ");
    s.append(status);
    s.append("\n");
    s.append(stdout);
    s.append(stderr);
    s
}

pub struct AgentConfig {
    /// Hard cap on backend turns.
    pub max_turns: usize,
    pub verifier: Verifier,
}

impl Default for AgentConfig {
    fn default() -> (c: AgentConfig)
        ensures
            c.max_turns == 32,
            c.verifier is Dart,
    {
        AgentConfig { max_turns: 32, verifier: Verifier::Dart }
    }
}

#[derive(Debug)]
pub struct AgentReport {
    pub turns: usize,
    pub summary: String,
    /// Findings of the last failed verifier run (empty when clean).
    pub verifier_output: String,
    /// A real verifier passed (false when the model's word was trusted).
    pub verified: bool,
}

#[derive(Debug)]
pub enum ForgeError {
    Backend(String),
    Jail(String),
    Analyzer(String),
    NoConvergence(usize),
}

/// The error's message.
pub open spec fn forge_error_text(e: ForgeError) -> Seq<char> {
    match e {
        ForgeError::Backend(m) => "backend: "@ + m@,
        ForgeError::Jail(m) => "jail: "@ + m@,
        ForgeError::Analyzer(m) => "analyzer: "@ + m@,
        ForgeError::NoConvergence(n) => "did not converge after "@ + decimal(n as nat)
            + " iteration(s)"@,
    }
}

impl ForgeError {
    pub fn message(&self) -> (s: String)
        ensures
            s@ == forge_error_text(*self),
    {
        match self {
            ForgeError::Backend(m) => {
                let mut s = owned("backend: ");
                s.append(m.as_str());
                s
            },
            ForgeError::Jail(m) => {
                let mut s = owned("jail: ");
                s.append(m.as_str());
                s
            },
            ForgeError::Analyzer(m) => {
                let mut s = owned("analyzer: ");
                s.append(m.as_str());
                s
            },
            ForgeError::NoConvergence(n) => {
                let mut s = owned("did not converge after ");
                s.append(u64_to_decimal(*n as u64).as_str());
                s.append(" iteration(s)");
                s
            },
        }
    }
}

/// One whole-file edit — the argument shape of `write_file`.
#[derive(Debug)]
pub struct Edit {
    pub path: String,
    pub content: String,
}

/// The report of the single-task entry point.
#[derive(Debug)]
pub struct ForgeReport {
    pub iterations: usize,
    pub analyzer_output: String,
}

/// The turn budget of the single-task entry point: 8 turns per
/// iteration, at least 8.
pub open spec fn spec_turn_budget(max_iterations: usize) -> usize {
    let t = if max_iterations * 8 > usize::MAX {
        usize::MAX
    } else {
        (max_iterations * 8) as usize
    };
    if t < 8 {
        8
    } else {
        t
    }
}

pub fn forge_config(max_iterations: usize) -> (c: AgentConfig)
    ensures
        c.max_turns == spec_turn_budget(max_iterations),
        c.verifier is Dart,
{
    let t = if max_iterations > usize::MAX / 8 {
        usize::MAX
    } else {
        max_iterations * 8
    };
    AgentConfig { max_turns: if t < 8 {
        8
    } else {
        t
    }, verifier: Verifier::Dart }
}

/// The single-task entry point's outcome from the agent loop's: the
/// report renamed, and running out of turns reported against the
/// iteration budget.
pub fn forge_outcome(r: Result<AgentReport, ForgeError>, max_iterations: usize) -> (o: Result<
    ForgeReport,
    ForgeError,
>)
    ensures
        match r {
            Ok(rep) => o matches Ok(f) && f.iterations == rep.turns && f.analyzer_output@
                == rep.verifier_output@,
            Err(ForgeError::NoConvergence(_)) => o matches Err(ForgeError::NoConvergence(n)) && n
                == max_iterations,
            Err(e) => o == Err::<ForgeReport, ForgeError>(e),
        },
{
    match r {
        Ok(report) => Ok(ForgeReport { iterations: report.turns, analyzer_output: report.verifier_output }),
        Err(ForgeError::NoConvergence(_)) => Err(ForgeError::NoConvergence(max_iterations)),
        Err(e) => Err(e),
    }
}

/// The agent's system prompt.
pub const SYSTEM_PROMPT: &'static str = "You are the Lisa Forge, an autonomous coding agent working inside a jailed project directory. You inspect and modify the project by calling the provided tools.\n\nRules:\n- ALL paths are project-relative (e.g. `bin/main.dart`, `lib/src/foo.dart`). Never absolute, never containing `..` — the jail rejects them and the write does not happen.\n- Inspect before you edit: use `list_dir`, `read_file`, and `grep` to understand the project. Use `edit_file` for targeted changes, `write_file` for new files or complete rewrites.\n- `run_command` is allowlisted and runs in the project root; use it for toolchain commands. Use `run_tests` to run the test suite.\n- Analyzer/verifier findings are fed back to you after each edit; fix them.\n- When the task is complete, reply with a short summary and NO tool call.";

/// A message as the specification sees it: role and text.
pub open spec fn said(m: Message) -> (Role, Seq<char>) {
    (m.role, m.content@)
}

pub open spec fn transcript(h: Seq<Message>) -> Seq<(Role, Seq<char>)> {
    Seq::new(h.len(), |i: int| said(h[i]))
}

/// The agent loop's state: the conversation, the turns taken, the last
/// findings, and the configuration.
pub struct AgentLoop {
    pub history: Vec<Message>,
    pub turn: usize,
    pub verifier_output: String,
    pub max_turns: usize,
    pub trusts_model: bool,
}

/// What the loop does next.
pub enum Step {
    /// Ask the backend for another turn.
    Continue,
    /// Finished.
    Finished(AgentReport),
    /// Out of turns.
    Exhausted(ForgeError),
}

/// The user message rejecting a premature done signal.
pub open spec fn not_done_text(findings: Seq<char>) -> Seq<char> {
    "You said you were done, but the verifier still reports:\n"@ + findings + "\nKeep working."@
}

/// The user message carrying findings after an edit.
pub open spec fn findings_text(findings: Seq<char>) -> Seq<char> {
    "Verifier findings after your edit:\n"@ + findings + "\nFix them."@
}

impl AgentLoop {
    /// A fresh loop for `task`: the system prompt and the task.
    pub fn start(task: &str, config: &AgentConfig) -> (l: AgentLoop)
        ensures
            transcript(l.history@) == seq![
                (Role::System, SYSTEM_PROMPT@),
                (Role::User, "Task: "@ + task@),
            ],
            l.turn == 0,
            l.verifier_output@ == Seq::<char>::empty(),
            l.max_turns == config.max_turns,
            l.trusts_model == (config.verifier is NoCheck),
    {
        let mut history: Vec<Message> = Vec::new();
        history.push(Message::bare(Role::System, SYSTEM_PROMPT));
        let mut t = owned("Task: ");
        t.append(task);
        history.push(Message::bare(Role::User, t.as_str()));
        assert(transcript(history@) =~= seq![
            (Role::System, SYSTEM_PROMPT@),
            (Role::User, "Task: "@ + task@),
        ]);
        AgentLoop {
            history,
            turn: 0,
            verifier_output: String::new(),
            max_turns: config.max_turns,
            trusts_model: config.verifier.is_none(),
        }
    }

    /// Start the next turn, or give up when the budget is spent.
    pub fn begin_turn(&mut self) -> (go: bool)
        ensures
            go == (old(self).turn < old(self).max_turns),
            go ==> final(self).turn == old(self).turn + 1,
            go ==> 1 <= final(self).turn <= final(self).max_turns,
            !go ==> final(self).turn == old(self).turn,
            final(self).history@ == old(self).history@,
            final(self).verifier_output@ == old(self).verifier_output@,
            final(self).max_turns == old(self).max_turns,
            final(self).trusts_model == old(self).trusts_model,
    {
        if self.turn < self.max_turns {
            self.turn = self.turn + 1;
            true
        } else {
            false
        }
    }

    /// The error when the budget ran out.
    pub fn exhausted(&self) -> (e: ForgeError)
        ensures
            e matches ForgeError::NoConvergence(n) && n == self.max_turns,
    {
        ForgeError::NoConvergence(self.max_turns)
    }

    /// The backend said done with `summary`; the verifier answered
    /// `findings` (None when clean). Clean: finished (verified unless
    /// the model was trusted). Otherwise the rejection goes back into
    /// the conversation and the loop continues.
    pub fn on_done(&mut self, summary: String, findings: Option<String>) -> (s: Step)
        ensures
            findings is None ==> (s matches Step::Finished(r) && r.turns == old(self).turn
                && r.summary@ == summary@ && r.verifier_output@ == old(self).verifier_output@
                && r.verified == !old(self).trusts_model && final(self).history@ == old(
                self,
            ).history@),
            findings matches Some(f) ==> (s is Continue && transcript(final(self).history@)
                == transcript(old(self).history@) + seq![
                (Role::Assistant, summary@),
                (Role::User, not_done_text(f@)),
            ] && final(self).verifier_output@ == f@),
            final(self).turn == old(self).turn,
            final(self).max_turns == old(self).max_turns,
            final(self).trusts_model == old(self).trusts_model,
    {
        match findings {
            None => {
                let out = self.verifier_output.clone();
                Step::Finished(
                    AgentReport {
                        turns: self.turn,
                        summary,
                        verifier_output: out,
                        verified: !self.trusts_model,
                    },
                )
            },
            Some(f) => {
                let ghost before = transcript(self.history@);
                self.history.push(Message::bare(Role::Assistant, summary.as_str()));
                let mut t = owned("You said you were done, but the verifier still reports:\n");
                t.append(f.as_str());
                t.append("\nKeep working.");
                self.history.push(Message::bare(Role::User, t.as_str()));
                assert(transcript(self.history@) =~= before + seq![
                    (Role::Assistant, summary@),
                    (Role::User, not_done_text(f@)),
                ]);
                self.verifier_output = f;
                Step::Continue
            },
        }
    }

    /// The backend called a tool and it produced `text`. When the call
    /// changed the project the verifier answered `findings` (`None` when
    /// it did not run): a real verifier passing ends the loop at once;
    /// findings go back into the conversation.
    pub fn on_tool(&mut self, call: ToolCall, text: &str, mutated: bool, findings: Option<Option<String>>) -> (s: Step)
        requires
            mutated ==> findings is Some,
        ensures
            transcript(final(self).history@).take(old(self).history@.len() as int + 2) == transcript(
                old(self).history@,
            ) + seq![(Role::Assistant, Seq::<char>::empty()), (Role::Tool, text@)],
            (mutated && findings == Some(None::<String>) && !old(self).trusts_model) ==> (s matches Step::Finished(r)
                && r.turns == old(self).turn && r.summary@ == Seq::<char>::empty()
                && r.verifier_output@ == Seq::<char>::empty() && r.verified),
            findings matches Some(Some(f)) ==> (mutated ==> (s is Continue && transcript(
                final(self).history@,
            ) == transcript(old(self).history@) + seq![
                (Role::Assistant, Seq::<char>::empty()),
                (Role::Tool, text@),
                (Role::User, findings_text(f@)),
            ] && final(self).verifier_output@ == f@)),
            (!mutated || (findings == Some(None::<String>) && old(self).trusts_model)) ==> (s is Continue
                && transcript(final(self).history@) == transcript(old(self).history@) + seq![
                (Role::Assistant, Seq::<char>::empty()),
                (Role::Tool, text@),
            ] && final(self).verifier_output@ == old(self).verifier_output@),
            final(self).turn == old(self).turn,
            final(self).max_turns == old(self).max_turns,
            final(self).trusts_model == old(self).trusts_model,
    {
        let ghost before = transcript(self.history@);
        let id = call.id.clone();
        self.history.push(Message::assistant_call(call));
        self.history.push(Message::tool_result(id.as_str(), text));
        let ghost mid = transcript(self.history@);
        assert(mid =~= before + seq![(Role::Assistant, Seq::<char>::empty()), (Role::Tool, text@)]);
        assert(mid.take(before.len() as int + 2) =~= mid);
        if !mutated {
            return Step::Continue;
        }
        match findings {
            Some(None) => {
                if !self.trusts_model {
                    Step::Finished(
                        AgentReport {
                            turns: self.turn,
                            summary: String::new(),
                            verifier_output: String::new(),
                            verified: true,
                        },
                    )
                } else {
                    Step::Continue
                }
            },
            Some(Some(f)) => {
                let mut t = owned("Verifier findings after your edit:\n");
                t.append(f.as_str());
                t.append("\nFix them.");
                self.history.push(Message::bare(Role::User, t.as_str()));
                assert(transcript(self.history@) =~= mid.push((Role::User, findings_text(f@))));
                assert(transcript(self.history@).take(before.len() as int + 2) =~= mid);
                self.verifier_output = f;
                Step::Continue
            },
            None => Step::Continue,
        }
    }
}

/// How many of the answers granted a turn.
pub open spec fn granted_turns(answers: Seq<bool>) -> nat
    decreases answers.len(),
{
    if answers.len() == 0 {
        0
    } else {
        granted_turns(answers.drop_last()) + if answers.last() {
            1nat
        } else {
            0nat
        }
    }
}

/// The answers of successive `begin_turn` calls on a loop that started at
/// turn 0 with the budget `max`: the turn counter is the number of turns
/// granted so far (no other step changes it), and each answer says whether
/// it is still under the budget.
pub open spec fn budget_answers(max: nat, answers: Seq<bool>) -> bool {
    forall|k: int|
        0 <= k < answers.len() ==> #[trigger] answers[k] == (granted_turns(answers.take(k)) < max)
}

/// The turn budget: however long the loop runs, the backend gets
/// `min(calls, max_turns)` turns, never more than `max_turns`.
pub proof fn lemma_turn_budget(max: nat, answers: Seq<bool>)
    requires
        budget_answers(max, answers),
    ensures
        granted_turns(answers) == if answers.len() < max {
            answers.len()
        } else {
            max
        },
        granted_turns(answers) <= max,
    decreases answers.len(),
{
    if answers.len() > 0 {
        let front = answers.drop_last();
        let n = front.len() as int;
        assert forall|k: int| 0 <= k < front.len() implies #[trigger] front[k] == (granted_turns(
            front.take(k),
        ) < max) by {
            assert(front.take(k) =~= answers.take(k));
            assert(front[k] == answers[k]);
        }
        lemma_turn_budget(max, front);
        assert(answers.take(n) =~= front);
        assert(answers[n] == (granted_turns(front) < max));
    }
}

/// How a backend's tool-call arguments arrived: JSON text to be parsed,
/// an object given directly, or neither (treated as no arguments).
pub enum Arguments {
    Text(String),
    Object(Json),
    Empty,
}

/// A chat-completion reply, decoded: the first tool call, or — with no
/// tool calls — the model's done signal.
pub enum Decoded {
    Call { id: String, name: String, args: Arguments },
    Done(String),
    NoMessage,
    NoName,
    NoContent,
}

/// The first tool call of a reply message, if it has a non-empty
/// `tool_calls` array.
pub open spec fn first_call(message: Json) -> Option<Json> {
    match member(message, "tool_calls"@) {
        Some(Json::Array(a)) => if a@.len() > 0 {
            Some(a@[0])
        } else {
            None
        },
        _ => None,
    }
}

/// Decode a backend reply.
pub fn decode_reply(json: &Json) -> (d: Decoded)
    ensures
        then_member(then_elem(member(*json, "choices"@), 0), "message"@) matches Some(Json::Null)
            || then_member(then_elem(member(*json, "choices"@), 0), "message"@) is None ==> d is NoMessage,
        then_member(then_elem(member(*json, "choices"@), 0), "message"@) matches Some(msg) ==> (!(
        msg is Null) ==> match first_call(msg) {
            Some(c) => match str_of(then_member(member(c, "function"@), "name"@)) {
                Some(n) => d matches Decoded::Call { id, name, args } && name@ == n && id@ == (
                match str_of(member(c, "id"@)) {
                    Some(i) => i,
                    None => "call_0"@,
                }) && match then_member(member(c, "function"@), "arguments"@) {
                    Some(Json::Str(t)) => args matches Arguments::Text(x) && x@ == t@,
                    Some(Json::Object(o)) => args matches Arguments::Object(v) && v@ == Json::Object(o)@,
                    _ => args is Empty,
                },
                None => d is NoName,
            },
            None => match str_of(member(msg, "content"@)) {
                Some(t) => d matches Decoded::Done(x) && x@ == t,
                None => d is NoContent,
            },
        }),
{
    let message = field(at(get(json, "choices"), 0), "message");
    let msg = match message {
        None => return Decoded::NoMessage,
        Some(Json::Null) => return Decoded::NoMessage,
        Some(m) => m,
    };
    let first = match get(msg, "tool_calls") {
        Some(Json::Array(a)) => if a.len() > 0 {
            Some(&a[0])
        } else {
            None
        },
        _ => None,
    };
    match first {
        Some(c) => {
            let f = get(c, "function");
            let name = match as_str(field(f, "name")) {
                Some(n) => n,
                None => return Decoded::NoName,
            };
            let id = match as_str(get(c, "id")) {
                Some(i) => owned(i),
                None => owned("call_0"),
            };
            let args = match field(f, "arguments") {
                Some(Json::Str(t)) => Arguments::Text(t.clone()),
                Some(Json::Object(o)) => {
                    let v = copy_json(field(f, "arguments").unwrap());
                    Arguments::Object(v)
                },
                _ => Arguments::Empty,
            };
            Decoded::Call { id, name: owned(name), args }
        },
        None => match as_str(get(msg, "content")) {
            Some(t) => Decoded::Done(owned(t)),
            None => Decoded::NoContent,
        },
    }
}

/// `{"content": …, "role": …}`.
pub open spec fn plain_wire(role: Seq<char>, content: Seq<char>) -> JValue {
    JValue::Object(seq![("content"@, JValue::Str(content)), ("role"@, JValue::Str(role))])
}

/// The OpenAI wire shape of one history message; `args_text` is the
/// serialized arguments of the assistant's tool call, when it has one.
pub open spec fn spec_wire_message(m: Message, args_text: Seq<char>) -> JValue {
    match m.role {
        Role::System => plain_wire("system"@, m.content@),
        Role::User => plain_wire("user"@, m.content@),
        Role::Assistant => match m.tool_call {
            Some(call) => JValue::Object(
                seq![
                    ("content"@, if m.content@.len() == 0 {
                        JValue::Null
                    } else {
                        JValue::Str(m.content@)
                    }),
                    ("role"@, JValue::Str("assistant"@)),
                    ("tool_calls"@, JValue::Array(seq![call_wire(call.id@, call.name@, args_text)])),
                ],
            ),
            None => plain_wire("assistant"@, m.content@),
        },
        Role::Tool => JValue::Object(
            seq![
                ("content"@, JValue::Str(m.content@)),
                ("role"@, JValue::Str("tool"@)),
                ("tool_call_id"@, match m.tool_call_id {
                    Some(i) => JValue::Str(i@),
                    None => JValue::Null,
                }),
            ],
        ),
    }
}

/// One wire tool call: `{"function": {"arguments": …, "name": …}, "id": …, "type": "function"}`.
pub open spec fn call_wire(id: Seq<char>, name: Seq<char>, args_text: Seq<char>) -> JValue {
    JValue::Object(
        seq![
            ("function"@, JValue::Object(
                seq![("arguments"@, JValue::Str(args_text)), ("name"@, JValue::Str(name))],
            )),
            ("id"@, JValue::Str(id)),
            ("type"@, JValue::Str("function"@)),
        ],
    )
}

fn text_field(k: &str, v: &str) -> (f: (String, Json))
    ensures
        f.0@ == k@,
        f.1@ == JValue::Str(v@),
{
    (owned(k), Json::Str(owned(v)))
}

fn plain(role: &str, content: &str) -> (j: Json)
    ensures
        j@ == plain_wire(role@, content@),
{
    let mut f: Vec<(String, Json)> = Vec::new();
    f.push(text_field("content", content));
    f.push(text_field("role", role));
    let j = object(f);
    assert(fields_view(f@) =~= seq![("content"@, JValue::Str(content@)), ("role"@, JValue::Str(role@))]);
    j
}

/// Map one history message onto the OpenAI message shapes.
pub fn wire_message(m: &Message, args_text: &str) -> (j: Json)
    ensures
        j@ == spec_wire_message(*m, args_text@),
{
    proof {
        reveal_strlit("system");
        reveal_strlit("user");
        reveal_strlit("assistant");
    }
    match m.role {
        Role::System => plain("system", m.content.as_str()),
        Role::User => plain("user", m.content.as_str()),
        Role::Assistant => match &m.tool_call {
            Some(call) => {
                let mut ff: Vec<(String, Json)> = Vec::new();
                ff.push(text_field("arguments", args_text));
                ff.push((owned("name"), Json::Str(call.name.clone())));
                let function = object(ff);
                assert(fields_view(ff@) =~= seq![
                    ("arguments"@, JValue::Str(args_text@)),
                    ("name"@, JValue::Str(call.name@)),
                ]);
                let mut cf: Vec<(String, Json)> = Vec::new();
                cf.push((owned("function"), function));
                cf.push((owned("id"), Json::Str(call.id.clone())));
                cf.push(text_field("type", "function"));
                let wired_call = object(cf);
                assert(fields_view(cf@) =~= seq![
                    ("function"@, JValue::Object(
                        seq![("arguments"@, JValue::Str(args_text@)), ("name"@, JValue::Str(call.name@))],
                    )),
                    ("id"@, JValue::Str(call.id@)),
                    ("type"@, JValue::Str("function"@)),
                ]);
                let content = if m.content.unicode_len() == 0 {
                    Json::Null
                } else {
                    Json::Str(m.content.clone())
                };
                let mut calls: Vec<Json> = Vec::new();
                calls.push(wired_call);
                let wired_calls = array(calls);
                assert(items_view(calls@) =~= seq![call_wire(call.id@, call.name@, args_text@)]);
                let mut f: Vec<(String, Json)> = Vec::new();
                f.push((owned("content"), content));
                f.push(text_field("role", "assistant"));
                f.push((owned("tool_calls"), wired_calls));
                let j = object(f);
                proof {
                    assert(fields_view(f@) =~= seq![
                        ("content"@, if m.content@.len() == 0 {
                            JValue::Null
                        } else {
                            JValue::Str(m.content@)
                        }),
                        ("role"@, JValue::Str("assistant"@)),
                        ("tool_calls"@, JValue::Array(seq![call_wire(call.id@, call.name@, args_text@)])),
                    ]);
                }
                j
            },
            None => plain("assistant", m.content.as_str()),
        },
        Role::Tool => {
            let id = match &m.tool_call_id {
                Some(i) => Json::Str(i.clone()),
                None => Json::Null,
            };
            let mut f: Vec<(String, Json)> = Vec::new();
            f.push((owned("content"), Json::Str(m.content.clone())));
            f.push(text_field("role", "tool"));
            f.push((owned("tool_call_id"), id));
            let j = object(f);
            assert(fields_view(f@) =~= seq![
                ("content"@, JValue::Str(m.content@)),
                ("role"@, JValue::Str("tool"@)),
                ("tool_call_id"@, match m.tool_call_id {
                    Some(i) => JValue::Str(i@),
                    None => JValue::Null,
                }),
            ]);
            j
        },
    }
}

pub open spec fn specs_wired(v: Seq<ToolSpec>) -> Seq<JValue> {
    Seq::new(v.len(), |i: int| crate::forge_tools::spec_wire(v[i]))
}

/// The chat-completions request: the wired history, the tool
/// declarations, one tool call at a time.
pub open spec fn spec_request_body(model: Option<Seq<char>>, wired: Seq<Json>, tools: Seq<ToolSpec>) -> JValue {
    JValue::Object(request_fields(model, items_view(wired), specs_wired(tools)))
}

pub open spec fn request_fields(model: Option<Seq<char>>, messages: Seq<JValue>, tools: Seq<JValue>) -> Seq<
    (Seq<char>, JValue),
> {
    seq![
        ("messages"@, JValue::Array(messages)),
        ("model"@, match model {
            Some(m) => JValue::Str(m),
            None => JValue::Null,
        }),
        ("parallel_tool_calls"@, JValue::Bool(false)),
        ("tool_choice"@, JValue::Str("auto"@)),
        ("tools"@, JValue::Array(tools)),
    ]
}

pub fn request_body(model: Option<&str>, wired: Vec<Json>, tools: &Vec<ToolSpec>) -> (j: Json)
    ensures
        j@ == spec_request_body(
            match model {
                Some(m) => Some(m@),
                None => None,
            },
            wired@,
            tools@,
        ),
{
    let mut decls: Vec<Json> = Vec::new();
    let mut i: usize = 0;
    while i < tools.len()
        invariant
            i <= tools.len(),
            decls@.len() == i,
            forall|k: int| 0 <= k < i ==> (#[trigger] decls@[k])@ == crate::forge_tools::spec_wire(tools@[k]),
        decreases tools.len() - i,
    {
        decls.push(tools[i].wire());
        i = i + 1;
    }
    let model_json = match model {
        Some(m) => Json::Str(owned(m)),
        None => Json::Null,
    };
    let ghost wv = items_view(wired@);
    let messages = array(wired);
    assert(items_view(decls@) =~= specs_wired(tools@));
    let tools_json = array(decls);
    let mut f: Vec<(String, Json)> = Vec::new();
    f.push((owned("messages"), messages));
    f.push((owned("model"), model_json));
    f.push((owned("parallel_tool_calls"), Json::Bool(false)));
    f.push(text_field("tool_choice", "auto"));
    f.push((owned("tools"), tools_json));
    let j = object(f);
    assert(fields_view(f@) =~= request_fields(
        match model {
            Some(m) => Some(m@),
            None => None,
        },
        wv,
        specs_wired(tools@),
    ));
    j
}

/// The OpenAI-compatible chat backend (lisa-inferenced or any
/// compatible endpoint): where it is and which model it asks for.
pub struct OpenAiBackend {
    pub url: String,
    pub model: Option<String>,
}

impl OpenAiBackend {
    /// The chat-completions endpoint: the URL without trailing slashes,
    /// then `/v1/chat/completions`.
    pub fn endpoint(&self) -> (e: String)
        ensures
            e@ == crate::providers::trim_slashes(self.url@) + "/v1/chat/completions"@,
    {
        let mut e = crate::providers::trim_trailing_slashes(self.url.as_str());
        e.append("/v1/chat/completions");
        e
    }
}

} // verus!
