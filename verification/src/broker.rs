//! The egress broker's decisions around one proxied request: what the
//! ledger records (model label, preview source, detail documents), which
//! credential authenticates the upstream call, the provider listing for
//! UI surfaces, the credential store's file names, and key provisioning
//! from staged files.

use crate::consent::{consent_error_text, refusal_view, scope_views, CheckRefusal, Consent, ConsentError};
use crate::json::{
    as_str, at, fields_view, get, member, object, str_array, str_of, str_values, then_elem,
    then_member, JValue, Json,
};
use crate::ledger::{input_hash, preview_of, spec_input_hash, spec_preview};
use crate::oauth::OauthError;
use crate::providers::{find_row, registry_error_text, AuthStyle, Dialect, ProviderSpec, Registry, RegistryError};
use crate::oauth::pair_views;
use crate::proxy::{
    build_upstream, output_tokens, proxy_error_text, spec_normalized, spec_output_tokens,
    spec_upstream, translate_response, usage_fits, ProxyError, ProxyErrorKind, UpstreamRequest,
};
use crate::text::{cut_spaces, find_char, index_of, lemma_index_of, owned, skip_spaces, str_eq, trim};
use vstd::prelude::*;

verus! {

fn kv(k: &str, v: Json) -> (f: (String, Json))
    ensures
        f.0@ == k@,
        f.1@ == v@,
{
    (owned(k), v)
}

fn jtext(s: &str) -> (j: Json)
    ensures
        j@ == JValue::Str(s@),
{
    Json::Str(owned(s))
}

/// The model label the ledger records: `<provider>:<model>` (model empty
/// when the body names none).
pub open spec fn spec_ledger_model(provider: Seq<char>, body: Json) -> Seq<char> {
    provider + ":"@ + match str_of(member(body, "model"@)) {
        Some(m) => m,
        None => Seq::empty(),
    }
}

pub fn ledger_model(provider: &str, body: &Json) -> (s: String)
    ensures
        s@ == spec_ledger_model(provider@, *body),
{
    let mut s = owned(provider);
    s.append(":");
    if let Some(m) = as_str(get(body, "model")) {
        s.append(m);
    }
    s
}

/// The last message of a chat body.
pub open spec fn last_message(body: Json) -> Option<Json> {
    match member(body, "messages"@) {
        Some(Json::Array(a)) => if a@.len() > 0 {
            Some(a@.last())
        } else {
            None
        },
        _ => None,
    }
}

/// What the ledger preview shows of a chat body: its last message's
/// text (empty when there is none).
pub open spec fn spec_prompt_preview(body: Json) -> Seq<char> {
    match last_message(body) {
        Some(m) => match str_of(member(m, "content"@)) {
            Some(c) => c,
            None => Seq::empty(),
        },
        None => Seq::empty(),
    }
}

pub fn prompt_preview(body: &Json) -> (s: String)
    ensures
        s@ == spec_prompt_preview(*body),
{
    match get(body, "messages") {
        Some(Json::Array(a)) => if a.len() > 0 {
            match as_str(get(&a[a.len() - 1], "content")) {
                Some(c) => owned(c),
                None => String::new(),
            }
        } else {
            String::new()
        },
        _ => String::new(),
    }
}

/// The detail of a started remote request (keys in order).
pub open spec fn spec_request_detail(spec: ProviderSpec, scopes: Seq<String>) -> JValue {
    JValue::Object(
        seq![
            ("egress"@, JValue::Str("remote"@)),
            ("endpoint"@, match spec.base_url {
                Some(u) => JValue::Str(u@),
                None => JValue::Null,
            }),
            ("provider"@, JValue::Str(spec.id@)),
            ("scopes"@, JValue::Array(str_values(scopes))),
        ],
    )
}

pub fn request_detail(spec: &ProviderSpec, scopes: &Vec<String>) -> (j: Json)
    ensures
        j@ == spec_request_detail(*spec, scopes@),
{
    let endpoint = match &spec.base_url {
        Some(u) => Json::Str(u.clone()),
        None => Json::Null,
    };
    let mut f: Vec<(String, Json)> = Vec::new();
    f.push(kv("egress", jtext("remote")));
    f.push(kv("endpoint", endpoint));
    f.push(kv("provider", Json::Str(spec.id.clone())));
    f.push(kv("scopes", str_array(scopes)));
    let j = object(f);
    assert(fields_view(f@) =~= seq![
        ("egress"@, JValue::Str("remote"@)),
        ("endpoint"@, match spec.base_url {
            Some(u) => JValue::Str(u@),
            None => JValue::Null,
        }),
        ("provider"@, JValue::Str(spec.id@)),
        ("scopes"@, JValue::Array(str_values(scopes@))),
    ]);
    j
}

/// The detail of a refused remote request (keys in order).
pub open spec fn spec_denied_detail(provider: Seq<char>, scopes: Seq<String>, reason: Seq<char>) -> JValue {
    JValue::Object(
        seq![
            ("egress"@, JValue::Str("remote"@)),
            ("provider"@, JValue::Str(provider)),
            ("reason"@, JValue::Str(reason)),
            ("scopes"@, JValue::Array(str_values(scopes))),
        ],
    )
}

pub fn denied_detail(provider: &str, scopes: &Vec<String>, reason: &str) -> (j: Json)
    ensures
        j@ == spec_denied_detail(provider@, scopes@, reason@),
{
    let mut f: Vec<(String, Json)> = Vec::new();
    f.push(kv("egress", jtext("remote")));
    f.push(kv("provider", jtext(provider)));
    f.push(kv("reason", jtext(reason)));
    f.push(kv("scopes", str_array(scopes)));
    let j = object(f);
    assert(fields_view(f@) =~= seq![
        ("egress"@, JValue::Str("remote"@)),
        ("provider"@, JValue::Str(provider@)),
        ("reason"@, JValue::Str(reason@)),
        ("scopes"@, JValue::Array(str_values(scopes@))),
    ]);
    j
}

/// The detail of a finished remote request: the error when it failed.
pub open spec fn spec_complete_detail(provider: Seq<char>, error: Option<Seq<char>>) -> JValue {
    match error {
        None => JValue::Object(
            seq![("egress"@, JValue::Str("remote"@)), ("provider"@, JValue::Str(provider))],
        ),
        Some(e) => JValue::Object(
            seq![
                ("egress"@, JValue::Str("remote"@)),
                ("error"@, JValue::Str(e)),
                ("provider"@, JValue::Str(provider)),
            ],
        ),
    }
}

pub fn complete_detail(provider: &str, error: Option<&str>) -> (j: Json)
    ensures
        j@ == spec_complete_detail(
            provider@,
            match error {
                Some(e) => Some(e@),
                None => None,
            },
        ),
{
    let mut f: Vec<(String, Json)> = Vec::new();
    f.push(kv("egress", jtext("remote")));
    if let Some(e) = error {
        f.push(kv("error", jtext(e)));
    }
    f.push(kv("provider", jtext(provider)));
    let j = object(f);
    proof {
        if error is Some {
            assert(fields_view(f@) =~= seq![
                ("egress"@, JValue::Str("remote"@)),
                ("error"@, JValue::Str(error->Some_0@)),
                ("provider"@, JValue::Str(provider@)),
            ]);
        } else {
            assert(fields_view(f@) =~= seq![
                ("egress"@, JValue::Str("remote"@)),
                ("provider"@, JValue::Str(provider@)),
            ]);
        }
    }
    j
}

/// The detail of a consent switch flip (keys in order).
pub open spec fn spec_consent_detail(scope: Seq<char>, allowed: bool) -> JValue {
    JValue::Object(
        seq![
            ("allowed"@, JValue::Bool(allowed)),
            ("egress"@, JValue::Str("remote"@)),
            ("scope"@, JValue::Str(scope)),
        ],
    )
}

pub fn consent_detail(scope: &str, allowed: bool) -> (j: Json)
    ensures
        j@ == spec_consent_detail(scope@, allowed),
{
    let mut f: Vec<(String, Json)> = Vec::new();
    f.push(kv("allowed", Json::Bool(allowed)));
    f.push(kv("egress", jtext("remote")));
    f.push(kv("scope", jtext(scope)));
    let j = object(f);
    assert(fields_view(f@) =~= seq![
        ("allowed"@, JValue::Bool(allowed)),
        ("egress"@, JValue::Str("remote"@)),
        ("scope"@, JValue::Str(scope@)),
    ]);
    j
}

/// `may_offload <scope> = <allowed>`.
pub fn consent_preview(scope: &str, allowed: bool) -> (s: String)
    ensures
        s@ == "may_offload "@ + scope@ + " = "@ + (if allowed {
            "true"@
        } else {
            "false"@
        }),
{
    let mut s = owned("may_offload ");
    s.append(scope);
    s.append(" = ");
    s.append(if allowed {
        "true"
    } else {
        "false"
    });
    s
}

/// A credential that is not stored, or could not be read.
#[derive(Debug)]
pub enum SecretsError {
    Missing(String),
    Io(String),
}

pub open spec fn secrets_error_text(e: SecretsError) -> Seq<char> {
    match e {
        SecretsError::Missing(x) => "no credential stored for "@ + x@,
        SecretsError::Io(m) => "io: "@ + m@,
    }
}

impl SecretsError {
    pub fn message(&self) -> (s: String)
        ensures
            s@ == secrets_error_text(*self),
    {
        match self {
            SecretsError::Missing(x) => {
                let mut s = owned("no credential stored for ");
                s.append(x.as_str());
                s
            },
            SecretsError::Io(m) => {
                let mut s = owned("io: ");
                s.append(m.as_str());
                s
            },
        }
    }
}

/// The file holding a provider's API key: `<provider>.key`.
pub fn key_file(provider: &str) -> (s: String)
    ensures
        s@ == provider@ + ".key"@,
{
    let mut s = owned(provider);
    s.append(".key");
    s
}

/// The file holding a provider's OAuth token set: `<provider>.oauth.json`.
pub fn oauth_file(provider: &str) -> (s: String)
    ensures
        s@ == provider@ + ".oauth.json"@,
{
    let mut s = owned(provider);
    s.append(".oauth.json");
    s
}

/// The temporary file a secret is written to before it is renamed into
/// place: `.<name>.tmp`.
pub fn temp_file(name: &str) -> (s: String)
    ensures
        s@ == "."@ + name@ + ".tmp"@,
{
    let mut s = owned(".");
    s.append(name);
    s.append(".tmp");
    s
}

/// The access token of a stored OAuth token set.
pub open spec fn access_token(token_set: Json) -> Option<Seq<char>> {
    str_of(member(token_set, "access_token"@))
}

/// Which credential authenticates provider `id` with declared style
/// `auth`, given the stored API key and the stored OAuth token set (each
/// if present). A bearer provider needs its key. For Anthropic an API
/// key wins; otherwise the OAuth token's access token authenticates as
/// an OAuth bearer.
pub open spec fn spec_credential(
    id: Seq<char>,
    auth: AuthStyle,
    key: Option<Seq<char>>,
    token_set: Option<Json>,
) -> Result<(Seq<char>, AuthStyle), Seq<char>> {
    match auth {
        AuthStyle::Bearer => match key {
            Some(k) => Ok((k, AuthStyle::Bearer)),
            None => Err(id),
        },
        _ => match key {
            Some(k) => Ok((k, AuthStyle::AnthropicApiKey)),
            None => match token_set {
                Some(t) => match access_token(t) {
                    Some(a) => Ok((a, AuthStyle::AnthropicOauth)),
                    None => Err(id),
                },
                None => Err(id + ".oauth.json"@),
            },
        },
    }
}

pub fn pick_credential(id: &str, auth: AuthStyle, key: Option<&str>, token_set: Option<&Json>) -> (r:
    Result<(String, AuthStyle), SecretsError>)
    ensures
        match spec_credential(
            id@,
            auth,
            match key {
                Some(k) => Some(k@),
                None => None,
            },
            match token_set {
                Some(t) => Some(*t),
                None => None,
            },
        ) {
            Ok((c, a)) => r matches Ok((c2, a2)) && c2@ == c && a2 == a,
            Err(m) => r matches Err(SecretsError::Missing(m2)) && m2@ == m,
        },
{
    match auth {
        AuthStyle::Bearer => match key {
            Some(k) => Ok((owned(k), AuthStyle::Bearer)),
            None => Err(SecretsError::Missing(owned(id))),
        },
        _ => match key {
            Some(k) => Ok((owned(k), AuthStyle::AnthropicApiKey)),
            None => match token_set {
                Some(t) => match as_str(get(t, "access_token")) {
                    Some(a) => Ok((owned(a), AuthStyle::AnthropicOauth)),
                    None => Err(SecretsError::Missing(owned(id))),
                },
                None => Err(SecretsError::Missing(oauth_file(id))),
            },
        },
    }
}

/// The kebab-case wire name of an auth style.
pub open spec fn auth_name(a: AuthStyle) -> Seq<char> {
    match a {
        AuthStyle::Bearer => "bearer"@,
        AuthStyle::AnthropicApiKey => "anthropic-api-key"@,
        AuthStyle::AnthropicOauth => "anthropic-oauth"@,
    }
}

/// The kebab-case wire name of a dialect.
pub open spec fn dialect_name(d: Dialect) -> Seq<char> {
    match d {
        Dialect::OpenaiCompat => "openai-compat"@,
        Dialect::AnthropicMessages => "anthropic-messages"@,
    }
}

fn auth_str(a: AuthStyle) -> (s: &'static str)
    ensures
        s@ == auth_name(a),
{
    match a {
        AuthStyle::Bearer => "bearer",
        AuthStyle::AnthropicApiKey => "anthropic-api-key",
        AuthStyle::AnthropicOauth => "anthropic-oauth",
    }
}

fn dialect_str(d: Dialect) -> (s: &'static str)
    ensures
        s@ == dialect_name(d),
{
    match d {
        Dialect::OpenaiCompat => "openai-compat",
        Dialect::AnthropicMessages => "anthropic-messages",
    }
}

/// One provider as UI surfaces list it: the row, whether a credential is
/// stored (never the value), and whether the Anthropic OAuth sign-in is offered.
pub open spec fn spec_provider_entry(
    p: ProviderSpec,
    has_key: bool,
    has_oauth_token: bool,
    oauth_configured: bool,
) -> JValue {
    JValue::Object(
        seq![
            ("auth"@, JValue::Str(auth_name(p.auth))),
            ("base_url"@, match p.base_url {
                Some(u) => JValue::Str(u@),
                None => JValue::Null,
            }),
            ("builtin"@, JValue::Bool(p.builtin)),
            ("dialect"@, JValue::Str(dialect_name(p.dialect))),
            ("display_name"@, JValue::Str(p.display_name@)),
            ("has_credential"@, JValue::Bool(has_key || has_oauth_token)),
            ("id"@, JValue::Str(p.id@)),
            ("notes"@, JValue::Str(p.notes@)),
            ("oauth_available"@, JValue::Bool(p.id@ == "anthropic"@ && oauth_configured)),
        ],
    )
}

pub fn provider_entry(p: &ProviderSpec, has_key: bool, has_oauth_token: bool, oauth_configured: bool) -> (j: Json)
    ensures
        j@ == spec_provider_entry(*p, has_key, has_oauth_token, oauth_configured),
{
    let base = match &p.base_url {
        Some(u) => Json::Str(u.clone()),
        None => Json::Null,
    };
    let oauth_available = str_eq(p.id.as_str(), "anthropic") && oauth_configured;
    let mut f: Vec<(String, Json)> = Vec::new();
    f.push(kv("auth", jtext(auth_str(p.auth))));
    f.push(kv("base_url", base));
    f.push(kv("builtin", Json::Bool(p.builtin)));
    f.push(kv("dialect", jtext(dialect_str(p.dialect))));
    f.push(kv("display_name", Json::Str(p.display_name.clone())));
    f.push(kv("has_credential", Json::Bool(has_key || has_oauth_token)));
    f.push(kv("id", Json::Str(p.id.clone())));
    f.push(kv("notes", Json::Str(p.notes.clone())));
    f.push(kv("oauth_available", Json::Bool(oauth_available)));
    let j = object(f);
    assert(fields_view(f@) =~= seq![
        ("auth"@, JValue::Str(auth_name(p.auth))),
        ("base_url"@, match p.base_url {
            Some(u) => JValue::Str(u@),
            None => JValue::Null,
        }),
        ("builtin"@, JValue::Bool(p.builtin)),
        ("dialect"@, JValue::Str(dialect_name(p.dialect))),
        ("display_name"@, JValue::Str(p.display_name@)),
        ("has_credential"@, JValue::Bool(has_key || has_oauth_token)),
        ("id"@, JValue::Str(p.id@)),
        ("notes"@, JValue::Str(p.notes@)),
        ("oauth_available"@, JValue::Bool(p.id@ == "anthropic"@ && oauth_configured)),
    ]);
    j
}

/// The provider id a staged key file is for: the file stem of a
/// `<stem>.key` file name (a name whose only dot leads, such as
/// `.key`, has no extension and is not a key file).
pub open spec fn spec_staged_stem(name: Seq<char>) -> Option<Seq<char>> {
    if name.len() > 4 && name.skip(name.len() - 4) == ".key"@ && name.take(name.len() - 4).len() > 0 {
        Some(name.take(name.len() - 4))
    } else {
        None
    }
}

pub fn staged_stem(name: &str) -> (r: Option<String>)
    ensures
        match r {
            Some(s) => spec_staged_stem(name@) == Some(s@),
            None => spec_staged_stem(name@) is None,
        },
{
    proof {
        reveal_strlit(".key");
    }
    let n = name.unicode_len();
    if n <= 4 {
        return None;
    }
    let tail = name.substring_char(n - 4, n);
    assert(tail@ =~= name@.skip(n - 4));
    if !str_eq(tail, ".key") {
        return None;
    }
    Some(owned(name.substring_char(0, n - 4)))
}

/// Why a broker operation failed.
#[derive(Debug)]
pub enum BrokerError {
    Registry(RegistryError),
    Secrets(SecretsError),
    Consent(ConsentError),
    Oauth(OauthError),
    Proxy(ProxyError),
    /// The ledger refused the entry: nothing is sent without one.
    Ledger(String),
    NoPendingOauth,
}

pub open spec fn broker_error_text(e: BrokerError) -> Seq<char> {
    match e {
        BrokerError::Registry(x) => registry_error_text(x),
        BrokerError::Secrets(x) => secrets_error_text(x),
        BrokerError::Consent(x) => consent_error_text(x),
        BrokerError::Oauth(_) => "Anthropic account sign-in is not configured: Anthropic publishes no registerable third-party OAuth client today; authorize_url/token_url/client_id in oauth.toml are unset (ADR-0008 §4)"@,
        BrokerError::Proxy(x) => proxy_error_text(x),
        BrokerError::Ledger(m) => "refusing to run without a ledger entry: "@ + m@,
        BrokerError::NoPendingOauth => "no Anthropic account sign-in in progress"@,
    }
}

impl BrokerError {
    pub fn message(&self) -> (s: String)
        ensures
            s@ == broker_error_text(*self),
    {
        match self {
            BrokerError::Registry(x) => x.message(),
            BrokerError::Secrets(x) => x.message(),
            BrokerError::Consent(x) => x.message(),
            BrokerError::Oauth(x) => x.message(),
            BrokerError::Proxy(x) => x.message(),
            BrokerError::Ledger(m) => {
                let mut s = owned("refusing to run without a ledger entry: ");
                s.append(m.as_str());
                s
            },
            BrokerError::NoPendingOauth => owned("no Anthropic account sign-in in progress"),
        }
    }
}

/// A ledger event the broker appends, its detail still a document (the
/// input hash, ids and timing are added where it is written).
pub struct LedgerDraft {
    pub kind: String,
    pub app_id: String,
    pub model: String,
    /// Hash of the input the entry is about (empty when there is none).
    pub input_hash: String,
    pub preview: String,
    pub status: String,
    pub detail: Json,
    pub ref_id: Option<i64>,
    pub output_tokens: i64,
}

/// A draft as the specification sees it: kind, app, model, preview,
/// status, detail, reference and output tokens (the input hash is stated
/// apart).
pub open spec fn draft_view(d: LedgerDraft) -> (
    Seq<char>,
    Seq<char>,
    Seq<char>,
    Seq<char>,
    Seq<char>,
    Seq<char>,
    JValue,
    Option<i64>,
    i64,
) {
    (d.kind@, d.app_id@, d.model@, d.input_hash@, d.preview@, d.status@, d.detail@, d.ref_id, d.output_tokens)
}

/// The consent gate of a chat completion.
pub enum Gate {
    /// Consent refused: the refusal is ledgered, nothing leaves and no
    /// credential is read.
    Refused { draft: LedgerDraft, error: BrokerError },
    /// The declared scopes may leave: credentials may be read next.
    Cleared(Cleared),
}

/// Proof that the consent gate passed for a provider and a set of
/// scopes; only `chat_gate` makes one.
pub struct Cleared {
    provider: String,
    scopes: Vec<String>,
}

impl Cleared {
    pub closed spec fn provider(&self) -> Seq<char> {
        self.provider@
    }

    pub closed spec fn scopes(&self) -> Seq<Seq<char>> {
        scope_views(self.scopes@)
    }
}

/// The rendered egress step: ledger `draft` (status `started`), then send
/// `upstream`.
pub struct ChatStart {
    pub upstream: UpstreamRequest,
    pub draft: LedgerDraft,
    pub dialect: Dialect,
    pub ledger_model: String,
}

/// `spec` authenticating with `auth`.
pub open spec fn with_auth(spec: ProviderSpec, auth: AuthStyle) -> ProviderSpec {
    ProviderSpec {
        id: spec.id,
        display_name: spec.display_name,
        base_url: spec.base_url,
        auth,
        dialect: spec.dialect,
        notes: spec.notes,
        builtin: spec.builtin,
    }
}

/// Rendering depends on a provider row only through its view.
proof fn lemma_upstream_by_view(a: ProviderSpec, b: ProviderSpec, credential: Seq<char>, body: Json)
    requires
        a@ == b@,
    ensures
        spec_upstream(a, credential, body) == spec_upstream(b, credential, body),
{
    if a.base_url is Some {
        assert(b.base_url is Some);
    }
}

fn draft(kind: &str, model: &str, input_hash: String, preview: &str, status: &str, detail: Json, ref_id: Option<
    i64,
>, tokens: i64) -> (d: LedgerDraft)
    ensures
        draft_view(d) == (kind@, "host"@, model@, input_hash@, preview@, status@, detail@, ref_id, tokens),
{
    LedgerDraft {
        kind: owned(kind),
        app_id: owned("host"),
        model: owned(model),
        input_hash,
        preview: owned(preview),
        status: owned(status),
        detail,
        ref_id,
        output_tokens: tokens,
    }
}

/// The consent gate of proxying `body` (received as `body_text`) to
/// provider `spec` for a request declaring `scopes`. A refusal is
/// ledgered (`denied`) and no credential is involved; otherwise the
/// request is cleared for the credential lookup.
pub fn chat_gate(spec: &ProviderSpec, consent: &Consent, scopes: &Vec<String>, body: &Json, body_text: &str) -> (g:
    Gate)
    ensures
        match consent.spec_check(scope_views(scopes@)) {
            Err(refusal) => g matches Gate::Refused { draft, error: BrokerError::Consent(e) }
                && refusal_view(Err(e)) == Err::<(), CheckRefusal>(refusal) && draft_view(draft) == (
                "remote.generate"@,
                "host"@,
                spec_ledger_model(spec.id@, *body),
                spec_input_hash(body_text@),
                spec_preview(spec_prompt_preview(*body)),
                "denied"@,
                spec_denied_detail(spec.id@, scopes@, consent_error_text(e)),
                None::<i64>,
                0i64,
            ),
            Ok(()) => g matches Gate::Cleared(c) && c.provider() == spec.id@ && c.scopes() == scope_views(
                scopes@,
            ),
        },
{
    match consent.check(scopes.as_slice()) {
        Err(e) => {
            let model = ledger_model(spec.id.as_str(), body);
            let preview = preview_of(prompt_preview(body).as_str());
            let reason = e.message();
            let detail = denied_detail(spec.id.as_str(), scopes, reason.as_str());
            let d = draft(
                "remote.generate",
                model.as_str(),
                input_hash(body_text),
                preview.as_str(),
                "denied",
                detail,
                None,
                0,
            );
            Gate::Refused { draft: d, error: BrokerError::Consent(e) }
        },
        Ok(()) => {
            let mut kept: Vec<String> = Vec::new();
            let mut i: usize = 0;
            while i < scopes.len()
                invariant
                    i <= scopes.len(),
                    kept@.len() == i,
                    forall|k: int| 0 <= k < i ==> (#[trigger] kept@[k])@ == scopes@[k]@,
                decreases scopes.len() - i,
            {
                kept.push(scopes[i].clone());
                i = i + 1;
            }
            let c = Cleared { provider: spec.id.clone(), scopes: kept };
            assert(c.scopes() =~= scope_views(scopes@));
            Gate::Cleared(c)
        },
    }
}

/// Render the egress step of a cleared request, given the stored API key
/// and OAuth token set (each if present): a missing credential or an
/// unrenderable body fails before anything is written; otherwise the
/// `started` entry, which precedes the upstream request.
pub fn chat_start(
    cleared: Cleared,
    spec: &ProviderSpec,
    scopes: &Vec<String>,
    key: Option<&str>,
    token_set: Option<&Json>,
    body: &Json,
    body_text: &str,
) -> (r: Result<ChatStart, BrokerError>)
    requires
        cleared.provider() == spec.id@,
        cleared.scopes() == scope_views(scopes@),
    ensures
        match spec_credential(
            spec.id@,
            spec.auth,
            match key {
                Some(k) => Some(k@),
                None => None,
            },
            match token_set {
                Some(t) => Some(*t),
                None => None,
            },
        ) {
            Err(m) => r matches Err(BrokerError::Secrets(SecretsError::Missing(x))) && x@ == m,
            Ok((c, a)) => match spec_upstream(with_auth(*spec, a), c, *body) {
                Err(ProxyErrorKind::NoEndpoint(id)) => r matches Err(BrokerError::Proxy(ProxyError::NoEndpoint(i)))
                    && i@ == id,
                Err(ProxyErrorKind::BadRequest) => r matches Err(BrokerError::Proxy(ProxyError::BadRequest)),
                Ok((url, headers, b)) => r matches Ok(go) && go.upstream.url@ == url && pair_views(
                    go.upstream.headers@,
                ) == headers && go.upstream.body@ == b && go.dialect == spec.dialect && go.ledger_model@
                    == spec_ledger_model(spec.id@, *body) && draft_view(go.draft) == (
                    "remote.generate"@,
                    "host"@,
                    spec_ledger_model(spec.id@, *body),
                    spec_input_hash(body_text@),
                    spec_preview(spec_prompt_preview(*body)),
                    "started"@,
                    spec_request_detail(*spec, scopes@),
                    None::<i64>,
                    0i64,
                ),
            },
        },
{
    let model = ledger_model(spec.id.as_str(), body);
    let preview = preview_of(prompt_preview(body).as_str());
    let (credential, auth) = match pick_credential(spec.id.as_str(), spec.auth, key, token_set) {
        Ok(c) => c,
        Err(e) => return Err(BrokerError::Secrets(e)),
    };
    let mut authed = spec.clone();
    authed.auth = auth;
    proof {
        lemma_upstream_by_view(authed, with_auth(*spec, auth), credential@, *body);
    }
    let upstream = match build_upstream(&authed, credential.as_str(), body) {
        Ok(u) => u,
        Err(e) => return Err(BrokerError::Proxy(e)),
    };
    let detail = request_detail(spec, scopes);
    let d = draft("remote.generate", model.as_str(), input_hash(body_text), preview.as_str(), "started", detail, None, 0);
    Ok(ChatStart { upstream, draft: d, dialect: spec.dialect, ledger_model: model })
}

/// A reply the broker can normalize: any OpenAI-compatible one, and a
/// Messages API one whose usage counters can be added.
pub open spec fn finishable(dialect: Dialect, sent: Result<Json, ProxyError>) -> bool {
    sent matches Ok(raw) ==> (dialect == Dialect::AnthropicMessages ==> usage_fits(raw))
}

/// Close a sent request: the `remote.complete` entry (referring to the
/// start entry `start_id`) and what the caller gets — the reply in the
/// OpenAI shape, or the transport or upstream error.
pub fn chat_finish(
    provider: &str,
    ledger_model: &str,
    dialect: Dialect,
    start_id: i64,
    sent: Result<Json, ProxyError>,
) -> (r: (LedgerDraft, Result<Json, BrokerError>))
    requires
        finishable(dialect, sent),
    ensures
        match sent {
            Ok(raw) => {
                let n = if dialect == Dialect::AnthropicMessages {
                    spec_normalized(raw)
                } else {
                    raw@
                };
                r.1 matches Ok(v) && v@ == n && draft_view(r.0) == (
                    "remote.complete"@,
                    "host"@,
                    ledger_model@,
                    Seq::<char>::empty(),
                    Seq::<char>::empty(),
                    "ok"@,
                    spec_complete_detail(provider@, None),
                    Some(start_id),
                    spec_output_tokens(v),
                )
            },
            Err(e) => r.1 matches Err(BrokerError::Proxy(e2)) && e2 == e && draft_view(r.0) == (
                "remote.complete"@,
                "host"@,
                ledger_model@,
                Seq::<char>::empty(),
                Seq::<char>::empty(),
                "error"@,
                spec_complete_detail(provider@, Some(proxy_error_text(e))),
                Some(start_id),
                0i64,
            ),
        },
{
    proof {
        reveal_strlit("");
    }
    match sent {
        Ok(raw) => {
            let normalized = translate_response(dialect, &raw);
            let tokens = output_tokens(&normalized);
            let detail = complete_detail(provider, None);
            let d = draft("remote.complete", ledger_model, String::new(), "", "ok", detail, Some(start_id), tokens);
            (d, Ok(normalized))
        },
        Err(e) => {
            let m = e.message();
            let detail = complete_detail(provider, Some(m.as_str()));
            let d = draft("remote.complete", ledger_model, String::new(), "", "error", detail, Some(start_id), 0);
            (d, Err(BrokerError::Proxy(e)))
        },
    }
}

/// The ledger entry of a consent switch.
pub fn consent_draft(scope: &str, allowed: bool) -> (d: LedgerDraft)
    ensures
        draft_view(d) == (
            "remote.consent"@,
            "settings"@,
            Seq::<char>::empty(),
            Seq::<char>::empty(),
            "may_offload "@ + scope@ + " = "@ + (if allowed {
                "true"@
            } else {
                "false"@
            }),
            "ok"@,
            spec_consent_detail(scope@, allowed),
            None::<i64>,
            0i64,
        ),
{
    LedgerDraft {
        kind: owned("remote.consent"),
        app_id: owned("settings"),
        model: String::new(),
        input_hash: String::new(),
        preview: consent_preview(scope, allowed),
        status: owned("ok"),
        detail: consent_detail(scope, allowed),
        ref_id: None,
        output_tokens: 0,
    }
}

/// The consent settings document: `{"may_offload": {scope: on, …}}`.
pub open spec fn spec_consent_json(c: Consent) -> JValue {
    JValue::Object(
        seq![
            ("may_offload"@, JValue::Object(
                Seq::new(6, |i: int| (crate::consent::sorted_scopes()[i], JValue::Bool(c.permits(crate::consent::sorted_scopes()[i])))),
            )),
        ],
    )
}

pub fn consent_json(c: &Consent) -> (j: Json)
    ensures
        j@ == spec_consent_json(*c),
{
    let snap = c.snapshot();
    let mut f: Vec<(String, Json)> = Vec::new();
    let mut i: usize = 0;
    while i < snap.len()
        invariant
            snap@.len() == 6,
            forall|k: int|
                0 <= k < 6 ==> (#[trigger] snap@[k]).0@ == crate::consent::sorted_scopes()[k] && snap@[k].1
                    == c.permits(crate::consent::sorted_scopes()[k]),
            i <= 6,
            f@.len() == i,
            forall|k: int|
                0 <= k < i ==> (#[trigger] f@[k]).0@ == crate::consent::sorted_scopes()[k] && f@[k].1@
                    == JValue::Bool(c.permits(crate::consent::sorted_scopes()[k])),
        decreases 6 - i,
    {
        f.push((snap[i].0.clone(), Json::Bool(snap[i].1)));
        i = i + 1;
    }
    let inner = object(f);
    assert(fields_view(f@) =~= Seq::new(
        6,
        |i: int| (crate::consent::sorted_scopes()[i], JValue::Bool(c.permits(crate::consent::sorted_scopes()[i]))),
    ));
    let mut outer: Vec<(String, Json)> = Vec::new();
    outer.push(kv("may_offload", inner));
    let j = object(outer);
    assert(fields_view(outer@) =~= seq![
        ("may_offload"@, JValue::Object(
            Seq::new(6, |i: int| (crate::consent::sorted_scopes()[i], JValue::Bool(c.permits(crate::consent::sorted_scopes()[i])))),
        )),
    ]);
    j
}

/// The providers document for UI surfaces: each row with whether a key
/// and an OAuth token are stored for it (`stored[i]`).
pub open spec fn spec_providers_json(rows: Seq<ProviderSpec>, stored: Seq<(bool, bool)>, oauth_configured: bool) -> JValue {
    JValue::Object(
        seq![
            ("providers"@, JValue::Array(
                Seq::new(rows.len(), |i: int| spec_provider_entry(rows[i], stored[i].0, stored[i].1, oauth_configured)),
            )),
        ],
    )
}

pub fn providers_json(rows: &Vec<ProviderSpec>, stored: &Vec<(bool, bool)>, oauth_configured: bool) -> (j: Json)
    requires
        stored.len() == rows.len(),
    ensures
        j@ == spec_providers_json(rows@, stored@, oauth_configured),
{
    let mut items: Vec<Json> = Vec::new();
    let mut i: usize = 0;
    while i < rows.len()
        invariant
            stored.len() == rows.len(),
            i <= rows.len(),
            items@.len() == i,
            forall|k: int|
                0 <= k < i ==> (#[trigger] items@[k])@ == spec_provider_entry(
                    rows@[k],
                    stored@[k].0,
                    stored@[k].1,
                    oauth_configured,
                ),
        decreases rows.len() - i,
    {
        items.push(provider_entry(&rows[i], stored[i].0, stored[i].1, oauth_configured));
        i = i + 1;
    }
    let ghost iv = crate::json::items_view(items@);
    assert(iv =~= Seq::new(
        rows@.len(),
        |i: int| spec_provider_entry(rows@[i], stored@[i].0, stored@[i].1, oauth_configured),
    ));
    let arr = crate::json::array(items);
    let mut f: Vec<(String, Json)> = Vec::new();
    f.push(kv("providers", arr));
    let j = object(f);
    assert(fields_view(f@) =~= seq![("providers"@, JValue::Array(iv))]);
    j
}

/// The staging directory's name under the ESP root.
pub const PROVISION_DIR: &'static str = "lisa-provision";

/// What importing one staged key did.
#[derive(Debug, PartialEq, Eq)]
pub enum ProvisionOutcome {
    Imported(String),
    /// The file stem matched no registry id; left in place for a human.
    UnknownProvider(String),
}

/// Why a key import failed.
#[derive(Debug)]
pub enum ProvisionError {
    Io(String),
    Secrets(SecretsError),
}

/// What to do with one file of the staging directory.
pub enum Staged {
    /// Not a `<provider>.key` file.
    Skip,
    /// A key for no registered provider: leave it.
    Unknown(String),
    /// A key for this provider: import it, then scrub the file.
    Known(String),
}

pub fn classify_staged(registry: &Registry, name: &str) -> (r: Staged)
    ensures
        spec_staged_stem(name@) is None ==> r is Skip,
        spec_staged_stem(name@) matches Some(stem) ==> (if find_row(registry.rows(), stem) >= 0 {
            r matches Staged::Known(s) && s@ == stem
        } else {
            r matches Staged::Unknown(s) && s@ == stem
        }),
{
    match staged_stem(name) {
        None => Staged::Skip,
        Some(stem) => match registry.get(stem.as_str()) {
            Ok(_) => Staged::Known(stem),
            Err(_) => Staged::Unknown(stem),
        },
    }
}

/// The key a staged file holds: its trimmed content, none when blank.
pub fn staged_value(content: &str) -> (r: Option<String>)
    ensures
        trim(content@).len() == 0 ==> r is None,
        trim(content@).len() > 0 ==> (r matches Some(v) && v@ == trim(content@)),
{
    let n = content.unicode_len();
    let a = skip_spaces(content, 0);
    let e = cut_spaces(content, a, n);
    assert(content@.skip(0) =~= content@);
    assert(content@.skip(a as int) =~= content@.subrange(a as int, n as int));
    if e == a {
        None
    } else {
        Some(owned(content.substring_char(a, e)))
    }
}

/// The HTTP status a broker failure is answered with: an unknown
/// provider is not found, a missing credential or endpoint a failed
/// precondition, a consent refusal forbidden, the unconfigured sign-in
/// not implemented, upstream trouble a bad gateway, a refused ledger
/// entry unavailable, and malformed requests bad.
pub open spec fn spec_http_status(e: BrokerError) -> u16 {
    match e {
        BrokerError::Registry(RegistryError::Unknown(_)) => 404,
        BrokerError::Registry(_) => 400,
        BrokerError::Secrets(SecretsError::Missing(_)) => 412,
        BrokerError::Secrets(SecretsError::Io(_)) => 500,
        BrokerError::Consent(ConsentError::Denied(_)) => 403,
        BrokerError::Consent(ConsentError::UnknownScope(_)) => 400,
        BrokerError::Oauth(_) => 501,
        BrokerError::Proxy(ProxyError::NoEndpoint(_)) => 412,
        BrokerError::Proxy(ProxyError::BadRequest) => 400,
        BrokerError::Proxy(ProxyError::Upstream { .. }) => 502,
        BrokerError::Proxy(ProxyError::Http(_)) => 502,
        BrokerError::Ledger(_) => 503,
        BrokerError::NoPendingOauth => 409,
    }
}

pub fn http_status(e: &BrokerError) -> (s: u16)
    ensures
        s == spec_http_status(*e),
{
    match e {
        BrokerError::Registry(RegistryError::Unknown(_)) => 404,
        BrokerError::Registry(_) => 400,
        BrokerError::Secrets(SecretsError::Missing(_)) => 412,
        BrokerError::Secrets(SecretsError::Io(_)) => 500,
        BrokerError::Consent(ConsentError::Denied(_)) => 403,
        BrokerError::Consent(ConsentError::UnknownScope(_)) => 400,
        BrokerError::Oauth(_) => 501,
        BrokerError::Proxy(ProxyError::NoEndpoint(_)) => 412,
        BrokerError::Proxy(ProxyError::BadRequest) => 400,
        BrokerError::Proxy(ProxyError::Upstream { .. }) => 502,
        BrokerError::Proxy(ProxyError::Http(_)) => 502,
        BrokerError::Ledger(_) => 503,
        BrokerError::NoPendingOauth => 409,
    }
}

/// The scopes a request declares in its scopes header: the
/// comma-separated items, each trimmed, blank ones dropped.
pub open spec fn scope_items(s: Seq<char>) -> Seq<Seq<char>>
    decreases s.len(),
{
    let j = index_of(s, ',');
    if 0 <= j && j < s.len() {
        let item = trim(s.take(j));
        let rest = scope_items(s.skip(j + 1));
        if item.len() == 0 {
            rest
        } else {
            seq![item] + rest
        }
    } else {
        let item = trim(s);
        if item.len() == 0 {
            Seq::empty()
        } else {
            seq![item]
        }
    }
}

pub fn scopes_from_header(h: &str) -> (r: Vec<String>)
    ensures
        scope_views(r@) == scope_items(h@),
{
    let n = h.unicode_len();
    let mut out: Vec<String> = Vec::new();
    let mut from: usize = 0;
    let mut done = false;
    assert(h@.skip(0) =~= h@);
    assert(scope_views(out@) + scope_items(h@) =~= scope_items(h@));
    while !done
        invariant
            n == h@.len(),
            from <= n,
            !done ==> scope_views(out@) + scope_items(h@.skip(from as int)) == scope_items(h@),
            done ==> scope_views(out@) == scope_items(h@),
        decreases n - from + (if done { 0int } else { 1int }),
    {
        let k = find_char(h, ',', from);
        let piece = h.substring_char(from, k);
        let ghost t = h@.skip(from as int);
        let ghost before = scope_views(out@);
        proof {
            lemma_index_of(t, ',');
            assert forall|i: int| 0 <= i < k - from implies t[i] != ',' by {
                assert(t[i] == h@[from + i]);
            }
            if k < n {
                assert(t[k - from] == ',');
                assert(index_of(t, ',') == k - from);
                assert(t.take(k - from) =~= piece@);
                assert(t.skip(k - from + 1) =~= h@.skip(k as int + 1));
            } else {
                assert(index_of(t, ',') == -1);
                assert(t =~= piece@);
            }
        }
        match staged_value(piece) {
            Some(v) => {
                out.push(v);
                assert(scope_views(out@) =~= before + seq![trim(piece@)]);
            },
            None => {
                assert(scope_views(out@) =~= before);
            },
        }
        if k >= n {
            done = true;
            proof {
                if trim(piece@).len() == 0 {
                    assert(scope_views(out@) + Seq::<Seq<char>>::empty() =~= scope_views(out@));
                }
                assert(scope_items(t) == (if trim(piece@).len() == 0 {
                    Seq::<Seq<char>>::empty()
                } else {
                    seq![trim(piece@)]
                }));
                if trim(piece@).len() == 0 {
                    assert(before + scope_items(t) =~= before);
                } else {
                    assert(before + scope_items(t) =~= before + seq![trim(piece@)]);
                }
            }
        } else {
            proof {
                let rest = scope_items(h@.skip(k as int + 1));
                if trim(piece@).len() == 0 {
                    assert(scope_items(t) == rest);
                } else {
                    assert(scope_items(t) == seq![trim(piece@)] + rest);
                    assert(before + (seq![trim(piece@)] + rest) =~= (before + seq![trim(piece@)]) + rest);
                }
            }
            from = k + 1;
        }
    }
    out
}

} // verus!
