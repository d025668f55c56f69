use lisa::broker::{
    chat_finish, chat_gate, chat_start, classify_staged, consent_draft, consent_json, providers_json, staged_value,
    BrokerError, Cleared, Gate, Staged,
    complete_detail, consent_preview, denied_detail, key_file, ledger_model, oauth_file, pick_credential,
    prompt_preview, provider_entry, request_detail, staged_stem, temp_file, http_status, scopes_from_header,
    SecretsError,
};
use lisa::consent::{is_known_scope, Consent, ConsentError};
use lisa::json::{Json, JsonNumber};
use lisa::oauth::{
    authorize_request, authorize_request_with_state, bearer_headers, token_exchange_form, urlencode, OauthEndpoints,
    OauthError, Pkce, ANTHROPIC_OAUTH_BETA,
};
use lisa::providers::{builtin_providers, valid_id, AuthStyle, Dialect, ProviderSpec, Registry, RegistryError};
use lisa::proxy::{build_upstream, headers_for, output_tokens, translate_response, usage_counts_fit, ProxyError};
use serde_json::Value;

fn to_json(v: &Value) -> Json {
    match v {
        Value::Null => Json::Null,
        Value::Bool(b) => Json::Bool(*b),
        Value::Number(n) => Json::Number(JsonNumber { text: n.to_string(), unsigned: n.as_u64(), signed: n.as_i64() }),
        Value::String(s) => Json::Str(s.clone()),
        Value::Array(a) => Json::Array(a.iter().map(to_json).collect()),
        Value::Object(m) => Json::Object(m.iter().map(|(k, v)| (k.clone(), to_json(v))).collect()),
    }
}

fn to_value(j: &Json) -> Value {
    match j {
        Json::Null => Value::Null,
        Json::Bool(b) => Value::Bool(*b),
        Json::Number(n) => serde_json::from_str(&n.text).unwrap(),
        Json::Str(s) => Value::String(s.clone()),
        Json::Array(a) => Value::Array(a.iter().map(to_value).collect()),
        Json::Object(m) => Value::Object(m.iter().map(|(k, v)| (k.clone(), to_value(v))).collect()),
    }
}

fn json(text: &str) -> Json {
    to_json(&serde_json::from_str::<Value>(text).unwrap())
}

fn pair(a: &str, b: &str) -> (String, String) {
    (a.to_string(), b.to_string())
}

// ---- OAuth ----

#[test]
fn oauth_bearer_carries_the_documented_beta_header() {
    let h = bearer_headers("tok");
    assert!(h.contains(&("authorization".into(), "Bearer tok".into())));
    assert!(h.contains(&("anthropic-beta".into(), "oauth-2025-04-20".into())));
    assert_eq!(ANTHROPIC_OAUTH_BETA, "oauth-2025-04-20");
}

#[test]
fn s256_matches_the_rfc_7636_appendix_b_vector() {
    let pkce = Pkce::from_verifier("dBjftJeZ4CVP-mB92K27uhbUJU1p1r_wW1gFWFOEjXk");
    assert_eq!(pkce.challenge, "E9Melhoa2OwvFrEMTJguCHaoeK1t8URWbuGJSstw-cM");
}

#[test]
fn generated_verifiers_are_valid_and_distinct() {
    let a = Pkce::generate();
    let b = Pkce::generate();
    assert_eq!(a.verifier.len(), 64);
    assert_ne!(a.verifier, b.verifier);
    assert!(a.verifier.chars().all(|c| c.is_ascii_alphanumeric() || "-._~".contains(c)));
    assert_eq!(Pkce::from_verifier(&a.verifier).challenge, a.challenge);
}

#[test]
fn defaults_are_unset_and_flow_reports_unconfigured() {
    let e = OauthEndpoints::default();
    assert!(!e.configured(), "endpoints ship unset");
    assert!(matches!(authorize_request(&e, &Pkce::generate()), Err(OauthError::Unconfigured)));
    assert!(matches!(token_exchange_form(&e, "code", "verifier"), Err(OauthError::Unconfigured)));
}

fn endpoints() -> OauthEndpoints {
    OauthEndpoints {
        authorize_url: Some("https://example.test/oauth/authorize".into()),
        token_url: Some("https://example.test/oauth/token".into()),
        client_id: Some("client id".into()),
        redirect_uri: Some("http://127.0.0.1:0/cb".into()),
        scope: None,
    }
}

#[test]
fn configured_endpoints_build_a_pkce_authorize_url_and_exchange_form() {
    let e = endpoints();
    let pkce = Pkce::from_verifier("dBjftJeZ4CVP-mB92K27uhbUJU1p1r_wW1gFWFOEjXk");
    let req = authorize_request(&e, &pkce).unwrap();
    assert!(req.authorize_url.starts_with("https://example.test/oauth/authorize?"));
    assert!(req.authorize_url.contains("code_challenge_method=S256"));
    assert!(req.authorize_url.contains("code_challenge=E9Melhoa2OwvFrEMTJguCHaoeK1t8URWbuGJSstw-cM"));
    assert!(req.authorize_url.contains("client_id=client%20id"));

    let form = token_exchange_form(&e, "auth-code", &req.verifier).unwrap();
    assert!(form.contains(&("grant_type".into(), "authorization_code".into())));
    assert!(form.contains(&("code_verifier".into(), pkce.verifier)));
}

#[test]
fn authorize_url_carries_the_state_and_redirect() {
    let e = endpoints();
    let pkce = Pkce::from_verifier("v");
    let req = authorize_request_with_state(&e, &pkce, "st-1").unwrap();
    assert_eq!(req.state, "st-1");
    assert_eq!(req.verifier, "v");
    assert!(req.authorize_url.contains("state=st-1"));
    assert!(req.authorize_url.contains("redirect_uri=http%3A%2F%2F127.0.0.1%3A0%2Fcb"));
    assert_eq!(urlencode("a b/c~-._"), "a%20b%2Fc~-._");
}

// ---- provider registry ----

#[test]
fn builtin_table_has_the_five_verified_providers() {
    let ids: Vec<String> = builtin_providers().into_iter().map(|p| p.id).collect();
    assert_eq!(ids, ["openai", "anthropic", "tinker", "together", "fireworks"]);
    for p in builtin_providers() {
        assert!(p.base_url.is_some(), "{} must have a verified URL", p.id);
        assert!(p.builtin);
    }
}

#[test]
fn anthropic_is_native_dialect_not_compat() {
    let a = builtin_providers().into_iter().find(|p| p.id == "anthropic").unwrap();
    assert_eq!(a.dialect, Dialect::AnthropicMessages);
    assert_eq!(a.auth, AuthStyle::AnthropicApiKey);
}

#[test]
fn custom_provider_is_listed_after_the_builtins() {
    let mut r = Registry::from_custom("/tmp/providers.json".to_string(), vec![]);
    r.add_custom("homelab", "Homelab llama", "http://10.0.0.2:8080/v1/").unwrap();
    // Trailing slash normalized, row visible.
    assert_eq!(r.get("homelab").unwrap().base_url.as_deref(), Some("http://10.0.0.2:8080/v1"));
    assert_eq!(r.list().len(), builtin_providers().len() + 1);
    assert_eq!(r.custom_rows().len(), 1);
    r.remove_custom("homelab").unwrap();
    assert!(r.get("homelab").is_err());
}

#[test]
fn rejects_bad_ids_duplicates_and_builtin_removal() {
    let mut r = Registry::from_custom("/tmp/providers.json".to_string(), vec![]);
    assert!(matches!(r.add_custom("Bad Id", "x", "https://x"), Err(RegistryError::InvalidId(_))));
    assert!(matches!(r.add_custom("openai", "x", "https://x"), Err(RegistryError::Exists(_))));
    assert!(matches!(r.add_custom("x", "x", "ftp://x"), Err(RegistryError::InvalidUrl(_))));
    assert!(matches!(r.remove_custom("tinker"), Err(RegistryError::Builtin(_))));
    assert!(matches!(r.remove_custom("nope"), Err(RegistryError::Unknown(_))));
    assert_eq!(RegistryError::Unknown("nope".into()).message(), "unknown provider: nope");
    assert!(valid_id("home-lab_2"));
    assert!(!valid_id(""));
}

// ---- consent ----

#[test]
fn default_is_nothing_leaves() {
    let c = Consent::new("/tmp/consent.json".to_string());
    for s in ["prompt", "files", "mail", "calendar", "screen", "memory"] {
        assert!(!c.allowed(s), "{s} must default to deny");
    }
    // Even a bare prompt-only request is refused by default.
    assert!(matches!(c.check(&[]), Err(ConsentError::Denied(d)) if d == ["prompt"]));
}

#[test]
fn enabling_prompt_admits_prompt_only_requests() {
    let mut c = Consent::new("/tmp/consent.json".to_string());
    c.set("prompt", true).unwrap();
    assert!(c.check(&[]).is_ok());
    assert!(c.check(&["prompt".into()]).is_ok());
    // But not requests carrying an unconsented scope.
    let err = c.check(&["mail".into()]).unwrap_err();
    assert!(matches!(err, ConsentError::Denied(d) if d == ["mail"]));
}

#[test]
fn unknown_scopes_are_rejected_and_settings_round_trip() {
    let mut c = Consent::new("/tmp/consent.json".to_string());
    c.set("files", true).unwrap();
    c.set("prompt", true).unwrap();
    assert!(matches!(c.set("browser_history", true), Err(ConsentError::UnknownScope(_))));
    let c = Consent::from_entries("/tmp/consent.json".to_string(), &c.entries());
    assert!(c.check(&["files".into()]).is_ok());
    assert!(matches!(c.check(&["telepathy".into()]), Err(ConsentError::UnknownScope(s)) if s == "telepathy"));
    assert!(is_known_scope("memory"));
    assert!(!is_known_scope("telepathy"));
    assert_eq!(c.snapshot().len(), 6);
}

#[test]
fn consent_errors_name_the_scopes() {
    let c = Consent::new("/tmp/consent.json".to_string());
    let err = c.check(&["mail".into(), "files".into()]).unwrap_err();
    assert!(matches!(&err, ConsentError::Denied(d) if d == &["mail", "files", "prompt"]));
    assert!(err.message().contains("[\"mail\", \"files\", \"prompt\"]"), "{}", err.message());
}

// ---- proxy ----

fn spec(id: &str) -> ProviderSpec {
    builtin_providers().into_iter().find(|p| p.id == id).unwrap()
}

#[test]
fn openai_compat_passes_the_body_through_with_bearer_auth() {
    let body = json(
        r#"{"model": "gpt-x", "messages": [{"role": "user", "content": "hi"}],
            "max_tokens": 5, "lisa_priority": "interactive"}"#,
    );
    let up = build_upstream(&spec("openai"), "sk-1", &body).unwrap();
    assert_eq!(up.url, "https://api.openai.com/v1/chat/completions");
    assert!(up.headers.contains(&("authorization".into(), "Bearer sk-1".into())));
    let b = to_value(&up.body);
    assert_eq!(b["model"], "gpt-x");
    assert!(b.get("lisa_priority").is_none(), "Lisa extensions stripped");
}

#[test]
fn tinker_together_fireworks_route_to_their_verified_bases() {
    let body = json(r#"{"messages": [{"role":"user","content":"x"}]}"#);
    for (id, url) in [
        ("tinker", "https://tinker.thinkingmachines.dev/services/tinker-prod/oai/api/v1/chat/completions"),
        ("together", "https://api.together.ai/v1/chat/completions"),
        ("fireworks", "https://api.fireworks.ai/inference/v1/chat/completions"),
    ] {
        let up = build_upstream(&spec(id), "k", &body).unwrap();
        assert_eq!(up.url, url, "{id}");
    }
}

#[test]
fn anthropic_renders_the_native_messages_api_with_system_hoisting() {
    let body = json(
        r#"{
            "model": "anthropic-x",
            "messages": [
                {"role": "system", "content": "be terse"},
                {"role": "user", "content": "hi"},
                {"role": "assistant", "content": "hello"},
                {"role": "system", "content": "stay terse"},
                {"role": "user", "content": "bye"}
            ]
        }"#,
    );
    let up = build_upstream(&spec("anthropic"), "sk-ant", &body).unwrap();
    assert_eq!(up.url, "https://api.anthropic.com/v1/messages");
    assert!(up.headers.contains(&("x-api-key".into(), "sk-ant".into())));
    assert!(up.headers.contains(&("anthropic-version".into(), "2023-06-01".into())));
    let b = to_value(&up.body);
    assert_eq!(b["system"], "be terse\nstay terse");
    assert_eq!(b["messages"].as_array().unwrap().len(), 3);
    assert_eq!(b["max_tokens"], 1024, "Messages API requires max_tokens");
}

#[test]
fn anthropic_response_normalizes_to_the_openai_shape() {
    let upstream = json(
        r#"{
            "id": "msg_1", "model": "anthropic-x", "stop_reason": "end_turn",
            "content": [{"type": "text", "text": "hel"}, {"type": "text", "text": "lo"}],
            "usage": {"input_tokens": 7, "output_tokens": 3}
        }"#,
    );
    let out = translate_response(Dialect::AnthropicMessages, &upstream);
    let v = to_value(&out);
    assert_eq!(v["choices"][0]["message"]["content"], "hello");
    assert_eq!(v["choices"][0]["finish_reason"], "stop");
    assert_eq!(v["usage"]["total_tokens"], 10);
    assert_eq!(output_tokens(&out), 3);
}

#[test]
fn missing_messages_and_missing_endpoint_are_refused() {
    assert!(matches!(build_upstream(&spec("openai"), "k", &json("{}")), Err(ProxyError::BadRequest)));
    let mut s = spec("openai");
    s.base_url = None;
    assert!(matches!(build_upstream(&s, "k", &json(r#"{"messages": []}"#)), Err(ProxyError::NoEndpoint(_))));
}

#[test]
fn oauth_headers_carry_the_beta_and_version() {
    assert_eq!(
        headers_for(AuthStyle::AnthropicOauth, "t"),
        vec![
            pair("content-type", "application/json"),
            pair("authorization", "Bearer t"),
            pair("anthropic-beta", "oauth-2025-04-20"),
            pair("anthropic-version", "2023-06-01"),
        ]
    );
}

// ---- broker decisions ----

#[test]
fn broker_ledger_fields_name_the_model_and_preview_the_prompt() {
    let body = json(r#"{"model": "gpt-x", "messages": [{"role": "user", "content": "hello\nworld"}]}"#);
    assert_eq!(ledger_model("openai", &body), "openai:gpt-x");
    assert_eq!(prompt_preview(&body), "hello\nworld");
    let d = to_value(&request_detail(&spec("openai"), &vec!["prompt".to_string()]));
    assert_eq!(d["provider"], "openai");
    let d = to_value(&denied_detail("openai", &vec!["mail".to_string()], "no"));
    assert_eq!(d["reason"], "no");
    let d = to_value(&complete_detail("openai", Some("boom")));
    assert_eq!(d["error"], "boom");
    assert_eq!(consent_preview("mail", true), "may_offload mail = true");
}

#[test]
fn credentials_and_secret_files() {
    assert_eq!(key_file("openai"), "openai.key");
    assert_eq!(oauth_file("anthropic"), "anthropic.oauth.json");
    assert_eq!(temp_file("openai.key"), ".openai.key.tmp");
    assert_eq!(staged_stem("openai.key"), Some("openai".to_string()));
    assert_eq!(staged_stem("README"), None);
    let key = pick_credential("openai", AuthStyle::Bearer, Some("sk"), None).unwrap();
    assert_eq!(key.0, "sk");
    assert!(pick_credential("openai", AuthStyle::Bearer, None, None).is_err());
    let entry = to_value(&provider_entry(&spec("anthropic"), true, false, false));
    assert_eq!(entry["id"], "anthropic");
    assert_eq!(entry["has_credential"], true);
    assert_eq!(entry["dialect"], "anthropic-messages");
}

fn chat_body() -> Json {
    json(r#"{"model": "gpt-x", "messages": [{"role": "user", "content": "hello"}]}"#)
}

const CHAT_TEXT: &str = r#"{"model": "gpt-x", "messages": [{"role": "user", "content": "hello"}]}"#;

fn blake3_of(text: &str) -> String {
    blake3::hash(text.as_bytes()).to_hex().to_string()
}

fn cleared(spec: &ProviderSpec, c: &Consent) -> Cleared {
    match chat_gate(spec, c, &vec![], &chat_body(), CHAT_TEXT) {
        Gate::Cleared(cl) => cl,
        Gate::Refused { .. } => panic!("consented scopes may leave the device"),
    }
}

#[test]
fn consent_refusals_are_ledgered_and_never_sent() {
    let c = Consent::new("/tmp/consent.json".to_string());
    match chat_gate(&spec("openai"), &c, &vec![], &chat_body(), CHAT_TEXT) {
        Gate::Refused { draft, error: BrokerError::Consent(ConsentError::Denied(d)) } => {
            assert_eq!(d, vec!["prompt".to_string()]);
            assert_eq!(draft.kind, "remote.generate");
            assert_eq!(draft.status, "denied");
            assert_eq!(draft.model, "openai:gpt-x");
            assert_eq!(draft.preview, "hello");
            assert_eq!(draft.input_hash, blake3_of(CHAT_TEXT));
            assert_eq!(draft.input_hash.len(), 64);
            let detail = to_value(&draft.detail);
            assert_eq!(detail["reason"], "scope not permitted to leave this device: [\"prompt\"]");
        },
        _ => panic!("nothing leaves without consent"),
    }
}

#[test]
fn the_started_entry_precedes_egress() {
    let mut c = Consent::new("/tmp/consent.json".to_string());
    c.set("prompt", true).unwrap();
    let openai = spec("openai");
    let go = chat_start(cleared(&openai, &c), &openai, &vec![], Some("sk"), None, &chat_body(), CHAT_TEXT).unwrap();
    assert_eq!(go.upstream.url, "https://api.openai.com/v1/chat/completions");
    assert!(go.upstream.headers.contains(&pair("authorization", "Bearer sk")));
    assert_eq!(go.draft.status, "started");
    assert_eq!(go.draft.input_hash, blake3_of(CHAT_TEXT));
    assert_eq!(go.ledger_model, "openai:gpt-x");
    assert_eq!(to_value(&go.draft.detail)["endpoint"], "https://api.openai.com/v1");
    assert!(matches!(
        chat_start(cleared(&openai, &c), &openai, &vec![], None, None, &chat_body(), CHAT_TEXT),
        Err(BrokerError::Secrets(_))
    ));
    // An Anthropic OAuth token authenticates as an OAuth bearer.
    let token = json(r#"{"access_token": "at-1"}"#);
    let anthropic = spec("anthropic");
    let go = chat_start(cleared(&anthropic, &c), &anthropic, &vec![], None, Some(&token), &chat_body(), CHAT_TEXT)
        .unwrap();
    assert!(go.upstream.headers.contains(&pair("authorization", "Bearer at-1")));
    assert!(go.upstream.headers.contains(&pair("anthropic-beta", "oauth-2025-04-20")));
}

#[test]
fn usage_counters_are_checked_before_they_are_added() {
    assert!(usage_counts_fit(&json(r#"{"usage": {"prompt_tokens": 3, "completion_tokens": 4}}"#)));
    assert!(usage_counts_fit(&json(r#"{"choices": []}"#)));
    let huge = format!(r#"{{"usage": {{"input_tokens": {}, "output_tokens": {}}}}}"#, u64::MAX, 1);
    assert!(!usage_counts_fit(&json(&huge)));
}

#[test]
fn completion_entries_refer_to_the_start() {
    let raw = json(r#"{"content": [{"type": "text", "text": "hi"}], "usage": {"input_tokens": 1, "output_tokens": 2}}"#);
    let (draft, out) = chat_finish("anthropic", "anthropic:x", Dialect::AnthropicMessages, 41, Ok(raw));
    assert_eq!(draft.ref_id, Some(41));
    assert_eq!(draft.status, "ok");
    assert_eq!(draft.output_tokens, 2);
    assert_eq!(to_value(&out.unwrap())["choices"][0]["message"]["content"], "hi");
    let (draft, out) = chat_finish("openai", "openai:x", Dialect::OpenaiCompat, 7, Err(ProxyError::Http("timed out".into())));
    assert_eq!(draft.status, "error");
    assert_eq!(to_value(&draft.detail)["error"], "http: timed out");
    assert_eq!(out.unwrap_err().message(), "http: timed out");
}

#[test]
fn settings_documents() {
    let mut c = Consent::new("/tmp/consent.json".to_string());
    c.set("mail", true).unwrap();
    let v = to_value(&consent_json(&c));
    assert_eq!(v["may_offload"]["mail"], true);
    assert_eq!(v["may_offload"]["prompt"], false);
    assert_eq!(v["may_offload"].as_object().unwrap().len(), 6);
    let d = consent_draft("mail", true);
    assert_eq!(d.kind, "remote.consent");
    assert_eq!(d.app_id, "settings");
    assert_eq!(d.preview, "may_offload mail = true");
    let rows = builtin_providers();
    let stored = vec![(true, false); rows.len()];
    let p = to_value(&providers_json(&rows, &stored, false));
    assert_eq!(p["providers"].as_array().unwrap().len(), 5);
    assert_eq!(p["providers"][1]["oauth_available"], false);
}

#[test]
fn staged_keys_are_imported_only_for_known_providers() {
    let r = Registry::from_custom("/tmp/providers.json".to_string(), vec![]);
    assert!(matches!(classify_staged(&r, "tinker.key"), Staged::Known(s) if s == "tinker"));
    assert!(matches!(classify_staged(&r, "mystery.key"), Staged::Unknown(s) if s == "mystery"));
    assert!(matches!(classify_staged(&r, "notes.txt"), Staged::Skip));
    assert!(matches!(classify_staged(&r, ".key"), Staged::Skip));
    assert_eq!(staged_value("tk-fieldtest-1\n"), Some("tk-fieldtest-1".to_string()));
    assert_eq!(staged_value(" \n"), None);
}

#[test]
fn scopes_header_items_are_trimmed_and_blank_ones_dropped() {
    assert_eq!(scopes_from_header("prompt, mail"), vec!["prompt".to_string(), "mail".to_string()]);
    assert_eq!(scopes_from_header("prompt"), vec!["prompt".to_string()]);
    assert_eq!(scopes_from_header(" files ,, screen ,"), vec!["files".to_string(), "screen".to_string()]);
    assert!(scopes_from_header("").is_empty());
    assert!(scopes_from_header(" , ").is_empty());
}

#[test]
fn broker_failures_map_to_http_statuses() {
    assert_eq!(http_status(&BrokerError::Registry(RegistryError::Unknown("nope".into()))), 404);
    assert_eq!(http_status(&BrokerError::Registry(RegistryError::Builtin("openai".into()))), 400);
    assert_eq!(http_status(&BrokerError::Secrets(SecretsError::Missing("openai".into()))), 412);
    assert_eq!(http_status(&BrokerError::Consent(ConsentError::Denied(vec!["prompt".into()]))), 403);
    assert_eq!(http_status(&BrokerError::Consent(ConsentError::UnknownScope("x".into()))), 400);
    assert_eq!(http_status(&BrokerError::Oauth(OauthError::Unconfigured)), 501);
    assert_eq!(http_status(&BrokerError::Proxy(ProxyError::BadRequest)), 400);
    assert_eq!(http_status(&BrokerError::Proxy(ProxyError::Upstream { status: 500, body: "x".into() })), 502);
    assert_eq!(http_status(&BrokerError::Ledger("down".into())), 503);
    assert_eq!(http_status(&BrokerError::NoPendingOauth), 409);
}
