//! Anthropic account OAuth sign-in machinery: RFC 7636 PKCE (S256),
//! authorize-URL construction, the form-encoded authorization-code
//! exchange, and the bearer headers for OAuth tokens. The endpoints ship
//! unset; until they are configured the flow reports `Unconfigured`.

use base64::Engine;
use crate::text::{owned, push_char};
use sha2::Digest;
use vstd::prelude::*;

verus! {

/// Header value required alongside OAuth bearer tokens.
pub const ANTHROPIC_OAUTH_BETA: &'static str = "oauth-2025-04-20";

/// The flow cannot start or finish without configured endpoints.
#[derive(Debug, Clone, Copy, PartialEq, Eq, Structural)]
pub enum OauthError {
    Unconfigured,
}

impl OauthError {
    /// The refusal's message.
    pub fn message(&self) -> (s: String)
        ensures
            s@ == "Anthropic account sign-in is not configured: Anthropic publishes no registerable third-party OAuth client today; authorize_url/token_url/client_id in oauth.toml are unset (ADR-0008 §4)"@,
    {
        owned(
            "Anthropic account sign-in is not configured: Anthropic publishes no registerable third-party OAuth client today; authorize_url/token_url/client_id in oauth.toml are unset (ADR-0008 §4)",
        )
    }
}

/// Endpoint configuration; every field defaults to None.
#[derive(Debug, Clone, Default)]
pub struct OauthEndpoints {
    pub authorize_url: Option<String>,
    pub token_url: Option<String>,
    pub client_id: Option<String>,
    pub redirect_uri: Option<String>,
    /// Space-separated scope string, if the program defines one.
    pub scope: Option<String>,
}

impl OauthEndpoints {
    /// Authorize URL, token URL and client id are all set.
    pub open spec fn spec_configured(&self) -> bool {
        self.authorize_url is Some && self.token_url is Some && self.client_id is Some
    }

    pub fn configured(&self) -> (b: bool)
        ensures
            b == self.spec_configured(),
    {
        self.authorize_url.is_some() && self.token_url.is_some() && self.client_id.is_some()
    }
}

// ---- SHA-256 and base64 (outside crates) --------------------------------

/// SHA-256 of `data`, as computed by the `sha2` crate.
pub uninterp spec fn spec_sha256(data: Seq<u8>) -> Seq<u8>;

/// `sha2::Sha256::digest`: the 32-byte SHA-256 digest of `data`. The
/// digest itself is named, not stated.
#[verifier::external_body]
fn sha256(data: &[u8]) -> (d: Vec<u8>)
    ensures
        d@ == spec_sha256(data@),
        d@.len() == 32,
{
    sha2::Sha256::digest(data).to_vec()
}

/// The URL-safe base64 alphabet (RFC 4648 §5).
pub open spec fn b64_char(v: int) -> char {
    if v < 26 {
        ((v + 65) as u8) as char
    } else if v < 52 {
        ((v - 26 + 97) as u8) as char
    } else if v < 62 {
        ((v - 52 + 48) as u8) as char
    } else if v == 62 {
        '-'
    } else {
        '_'
    }
}

/// URL-safe base64 without padding: each 3 bytes become 4 characters, a
/// final 1 or 2 bytes become 2 or 3.
pub open spec fn b64_url_nopad(d: Seq<u8>) -> Seq<char>
    decreases d.len(),
{
    let a = d[0] as int;
    let b = d[1] as int;
    let c = d[2] as int;
    if d.len() == 0 {
        Seq::empty()
    } else if d.len() == 1 {
        seq![b64_char(a / 4), b64_char((a % 4) * 16)]
    } else if d.len() == 2 {
        seq![b64_char(a / 4), b64_char((a % 4) * 16 + b / 16), b64_char((b % 16) * 4)]
    } else {
        seq![
            b64_char(a / 4),
            b64_char((a % 4) * 16 + b / 16),
            b64_char((b % 16) * 4 + c / 64),
            b64_char(c % 64),
        ] + b64_url_nopad(d.skip(3))
    }
}

/// `base64::engine::general_purpose::URL_SAFE_NO_PAD.encode`: URL-safe
/// base64 of `data`, without `=` padding.
#[verifier::external_body]
fn base64_url_nopad(data: &[u8]) -> (s: String)
    ensures
        s@ == b64_url_nopad(data@),
{
    base64::engine::general_purpose::URL_SAFE_NO_PAD.encode(data)
}

/// `rand::random_range(0..n)`: a uniformly chosen index below `n`.
#[verifier::external_body]
fn random_below(n: usize) -> (r: usize)
    requires
        n > 0,
    ensures
        r < n,
{
    rand::random_range(0..n)
}

// ---- PKCE ----------------------------------------------------------------

/// The RFC 7636 unreserved characters.
pub open spec fn unreserved(c: char) -> bool {
    ('A' <= c && c <= 'Z') || ('a' <= c && c <= 'z') || ('0' <= c && c <= '9') || c == '-' || c
        == '.' || c == '_' || c == '~'
}

/// The S256 challenge of a verifier: BASE64URL-NOPAD(SHA256(verifier)).
pub open spec fn s256_challenge(verifier: Seq<char>) -> Seq<char> {
    b64_url_nopad(spec_sha256(vstd::utf8::encode_utf8(verifier)))
}

/// RFC 7636 PKCE pair.
#[derive(Debug, Clone)]
pub struct Pkce {
    pub verifier: String,
    pub challenge: String,
}

impl Pkce {
    /// challenge = BASE64URL-NOPAD(SHA256(verifier)) — the S256 method.
    pub fn from_verifier(verifier: &str) -> (p: Pkce)
        ensures
            p.verifier@ == verifier@,
            p.challenge@ == s256_challenge(verifier@),
    {
        let digest = sha256(verifier.as_bytes());
        Pkce { verifier: owned(verifier), challenge: base64_url_nopad(digest.as_slice()) }
    }

    /// A fresh 64-character verifier drawn from the unreserved charset,
    /// with its S256 challenge.
    pub fn generate() -> (p: Pkce)
        ensures
            p.verifier@.len() == 64,
            forall|i: int| 0 <= i < 64 ==> unreserved(#[trigger] p.verifier@[i]),
            p.challenge@ == s256_challenge(p.verifier@),
    {
        let chars = "ABCDEFGHIJKLMNOPQRSTUVWXYZabcdefghijklmnopqrstuvwxyz0123456789-._~";
        proof {
            reveal_strlit("ABCDEFGHIJKLMNOPQRSTUVWXYZabcdefghijklmnopqrstuvwxyz0123456789-._~");
        }
        let n = chars.unicode_len();
        assert(n == 66);
        let mut v = String::new();
        let mut i: usize = 0;
        while i < 64
            invariant
                i <= 64,
                n == chars@.len(),
                n == 66,
                forall|j: int| 0 <= j < 66 ==> unreserved(#[trigger] chars@[j]),
                v@.len() == i,
                forall|j: int| 0 <= j < i ==> unreserved(#[trigger] v@[j]),
            decreases 64 - i,
        {
            let k = random_below(n);
            let c = chars.get_char(k);
            push_char(&mut v, c);
            i = i + 1;
        }
        Pkce::from_verifier(v.as_str())
    }
}

// ---- Authorization request ---------------------------------------------

/// Upper-case hexadecimal digit.
pub open spec fn hex_digit(v: int) -> char {
    if v < 10 {
        ((v + 48) as u8) as char
    } else {
        ((v - 10 + 65) as u8) as char
    }
}

/// One byte of percent-encoding: unreserved ASCII stays, anything else
/// becomes `%XX`.
pub open spec fn encode_byte(b: u8) -> Seq<char> {
    if unreserved(b as char) && b < 128 {
        seq![b as char]
    } else {
        seq!['%', hex_digit(b as int / 16), hex_digit(b as int % 16)]
    }
}

pub open spec fn percent_encoded(bytes: Seq<u8>) -> Seq<char>
    decreases bytes.len(),
{
    if bytes.len() == 0 {
        Seq::empty()
    } else {
        percent_encoded(bytes.drop_last()) + encode_byte(bytes.last())
    }
}

/// Percent-encoding of `s` (over its UTF-8 bytes).
pub open spec fn spec_urlencode(s: Seq<char>) -> Seq<char> {
    percent_encoded(vstd::utf8::encode_utf8(s))
}

/// Text made of unreserved characters only.
pub open spec fn all_unreserved(s: Seq<char>) -> bool {
    forall|i: int| 0 <= i < s.len() ==> unreserved(#[trigger] s[i])
}

/// Unreserved characters are ASCII, so UTF-8 spells each as one byte of
/// the same value.
proof fn lemma_unreserved_bytes(s: Seq<char>)
    requires
        all_unreserved(s),
    ensures
        vstd::utf8::encode_utf8(s).len() == s.len(),
        forall|i: int|
            0 <= i < s.len() ==> (#[trigger] vstd::utf8::encode_utf8(s)[i]) as u32 == s[i] as u32,
    decreases s.len(),
{
    if s.len() > 0 {
        let rest = s.drop_first();
        assert(all_unreserved(rest)) by {
            assert forall|i: int| 0 <= i < rest.len() implies unreserved(#[trigger] rest[i]) by {
                assert(rest[i] == s[i + 1]);
            }
        }
        lemma_unreserved_bytes(rest);
        assert(unreserved(s[0]));
        let v = s[0] as u32;
        assert(v < 128);
        assert(vstd::utf8::has_width_1_encoding(v));
        assert((v & 0x7F) == v) by (bit_vector)
            requires
                v < 128,
        ;
        let head = vstd::utf8::encode_scalar(v);
        assert(head =~= seq![vstd::utf8::leading_byte_width_1(v)]);
        assert forall|i: int| 0 <= i < s.len() implies (#[trigger] vstd::utf8::encode_utf8(s)[i]) as u32
            == s[i] as u32 by {
            if i > 0 {
                assert(vstd::utf8::encode_utf8(s)[i] == vstd::utf8::encode_utf8(rest)[i - 1]);
                assert(rest[i - 1] == s[i]);
            }
        }
    }
}

/// Percent-encoding leaves a run of unreserved ASCII bytes as it is.
proof fn lemma_percent_keeps(bytes: Seq<u8>)
    requires
        forall|i: int| 0 <= i < bytes.len() ==> #[trigger] bytes[i] < 128 && unreserved(bytes[i] as char),
    ensures
        percent_encoded(bytes).len() == bytes.len(),
        forall|i: int| 0 <= i < bytes.len() ==> (#[trigger] percent_encoded(bytes)[i]) as u32 == bytes[i] as u32,
    decreases bytes.len(),
{
    if bytes.len() > 0 {
        let front = bytes.drop_last();
        assert forall|i: int| 0 <= i < front.len() implies #[trigger] front[i] < 128 && unreserved(
            front[i] as char,
        ) by {
            assert(front[i] == bytes[i]);
        }
        lemma_percent_keeps(front);
        let b = bytes.last();
        assert(b < 128 && unreserved(b as char));
        assert(encode_byte(b) =~= seq![b as char]);
        assert forall|i: int| 0 <= i < bytes.len() implies (#[trigger] percent_encoded(bytes)[i]) as u32
            == bytes[i] as u32 by {
            if i < front.len() {
                assert(front[i] == bytes[i]);
            }
        }
    }
}

/// Text made of unreserved characters is its own percent-encoding, so
/// such a `state` or verifier appears in a URL exactly as it was made.
pub proof fn lemma_urlencode_unreserved(s: Seq<char>)
    requires
        all_unreserved(s),
    ensures
        spec_urlencode(s) == s,
{
    let bytes = vstd::utf8::encode_utf8(s);
    lemma_unreserved_bytes(s);
    assert forall|i: int| 0 <= i < bytes.len() implies #[trigger] bytes[i] < 128 && unreserved(
        bytes[i] as char,
    ) by {
        assert(bytes[i] as u32 == s[i] as u32);
        assert(unreserved(s[i]));
        assert(bytes[i] as char == s[i]);
    }
    lemma_percent_keeps(bytes);
    assert forall|i: int| 0 <= i < s.len() implies #[trigger] spec_urlencode(s)[i] == s[i] by {
        let a = spec_urlencode(s)[i];
        assert(a as u32 == s[i] as u32);
        vstd::utf8::char_u32_cast(a, a as u32);
        vstd::utf8::char_u32_cast(s[i], s[i] as u32);
    }
    assert(spec_urlencode(s) =~= s);
}

fn hex(v: u8) -> (c: char)
    requires
        v < 16,
    ensures
        c == hex_digit(v as int),
{
    if v < 10 {
        (v + 48) as char
    } else {
        (v - 10 + 65) as char
    }
}

/// Percent-encode every byte outside the RFC 3986 unreserved set.
pub fn urlencode(s: &str) -> (r: String)
    ensures
        r@ == spec_urlencode(s@),
{
    let bytes = s.as_bytes();
    let mut out = String::new();
    let mut i: usize = 0;
    while i < bytes.len()
        invariant
            i <= bytes@.len(),
            bytes@ == vstd::utf8::encode_utf8(s@),
            out@ == percent_encoded(bytes@.take(i as int)),
        decreases bytes@.len() - i,
    {
        let b = bytes[i];
        assert(bytes@.take(i as int + 1).drop_last() =~= bytes@.take(i as int));
        let keep = b < 128 && (('A' as u8 <= b && b <= 'Z' as u8) || ('a' as u8 <= b && b
            <= 'z' as u8) || ('0' as u8 <= b && b <= '9' as u8) || b == '-' as u8 || b == '.' as u8
            || b == '_' as u8 || b == '~' as u8);
        assert(keep == (unreserved(b as char) && b < 128));
        let ghost before = out@;
        if keep {
            push_char(&mut out, b as char);
        } else {
            push_char(&mut out, '%');
            push_char(&mut out, hex(b / 16));
            push_char(&mut out, hex(b % 16));
        }
        assert(out@ =~= before + encode_byte(b));
        i = i + 1;
    }
    assert(bytes@.take(bytes@.len() as int) =~= bytes@);
    out
}

/// A started sign-in: hand `authorize_url` to the browser, keep
/// `verifier` and `state` for the exchange.
#[derive(Debug, Clone)]
pub struct AuthorizeRequest {
    pub authorize_url: String,
    pub state: String,
    pub verifier: String,
}

pub open spec fn opt_seq(o: Option<String>) -> Option<Seq<char>> {
    match o {
        Some(s) => Some(s@),
        None => None,
    }
}

/// The authorize URL: code flow with a PKCE S256 challenge, the given
/// `state`, and the optional redirect URI and scope.
pub open spec fn spec_authorize_url(
    base: Seq<char>,
    client_id: Seq<char>,
    challenge: Seq<char>,
    state: Seq<char>,
    redirect: Option<Seq<char>>,
    scope: Option<Seq<char>>,
) -> Seq<char> {
    let url = base + "?response_type=code&client_id="@ + spec_urlencode(client_id)
        + "&code_challenge="@ + spec_urlencode(challenge)
        + "&code_challenge_method=S256&state="@ + spec_urlencode(state);
    let url = match redirect {
        Some(r) => url + "&redirect_uri="@ + spec_urlencode(r),
        None => url,
    };
    match scope {
        Some(s) => url + "&scope="@ + spec_urlencode(s),
        None => url,
    }
}

/// The authorization request for `state` (whatever came from the random
/// source): `Unconfigured` unless authorize URL, client id and token URL
/// are all set.
pub fn authorize_request_with_state(endpoints: &OauthEndpoints, pkce: &Pkce, state: &str) -> (r:
    Result<AuthorizeRequest, OauthError>)
    ensures
        !endpoints.spec_configured() ==> r == Err::<AuthorizeRequest, OauthError>(
            OauthError::Unconfigured,
        ),
        endpoints.spec_configured() ==> (r matches Ok(req) && req.state@ == state@
            && req.verifier@ == pkce.verifier@ && req.authorize_url@ == spec_authorize_url(
            endpoints.authorize_url->Some_0@,
            endpoints.client_id->Some_0@,
            pkce.challenge@,
            state@,
            opt_seq(endpoints.redirect_uri),
            opt_seq(endpoints.scope),
        )),
{
    let (base, client_id) = match (&endpoints.authorize_url, &endpoints.client_id) {
        (Some(b), Some(c)) => (b, c),
        _ => return Err(OauthError::Unconfigured),
    };
    if endpoints.token_url.is_none() {
        return Err(OauthError::Unconfigured);
    }
    let mut url = base.clone();
    url.append("?response_type=code&client_id=");
    url.append(urlencode(client_id.as_str()).as_str());
    url.append("&code_challenge=");
    url.append(urlencode(pkce.challenge.as_str()).as_str());
    url.append("&code_challenge_method=S256&state=");
    url.append(urlencode(state).as_str());
    if let Some(r) = &endpoints.redirect_uri {
        url.append("&redirect_uri=");
        url.append(urlencode(r.as_str()).as_str());
    }
    if let Some(s) = &endpoints.scope {
        url.append("&scope=");
        url.append(urlencode(s.as_str()).as_str());
    }
    Ok(AuthorizeRequest { authorize_url: url, state: owned(state), verifier: pkce.verifier.clone() })
}

/// Build the authorization request (code + PKCE S256) with a fresh
/// 32-character `state`. `Unconfigured` until real endpoints exist.
pub fn authorize_request(endpoints: &OauthEndpoints, pkce: &Pkce) -> (r: Result<
    AuthorizeRequest,
    OauthError,
>)
    ensures
        !endpoints.spec_configured() ==> r == Err::<AuthorizeRequest, OauthError>(
            OauthError::Unconfigured,
        ),
        endpoints.spec_configured() ==> (r matches Ok(req) && req.state@.len() == 32
            && (forall|i: int| 0 <= i < 32 ==> unreserved(#[trigger] req.state@[i]))
            && spec_urlencode(req.state@) == req.state@
            && req.verifier@ == pkce.verifier@ && req.authorize_url@ == spec_authorize_url(
            endpoints.authorize_url->Some_0@,
            endpoints.client_id->Some_0@,
            pkce.challenge@,
            req.state@,
            opt_seq(endpoints.redirect_uri),
            opt_seq(endpoints.scope),
        )),
{
    if !endpoints.configured() {
        return Err(OauthError::Unconfigured);
    }
    let fresh = Pkce::generate();
    let state = fresh.verifier.as_str().substring_char(0, 32);
    proof {
        lemma_urlencode_unreserved(state@);
    }
    authorize_request_with_state(endpoints, pkce, state)
}

pub open spec fn pair_views(v: Seq<(String, String)>) -> Seq<(Seq<char>, Seq<char>)> {
    Seq::new(v.len(), |i: int| (v[i].0@, v[i].1@))
}

fn pair(k: &str, v: &str) -> (p: (String, String))
    ensures
        p.0@ == k@,
        p.1@ == v@,
{
    (owned(k), owned(v))
}

/// The form body for the code → token exchange.
pub open spec fn spec_exchange_form(
    client_id: Seq<char>,
    code: Seq<char>,
    verifier: Seq<char>,
    redirect: Option<Seq<char>>,
) -> Seq<(Seq<char>, Seq<char>)> {
    let form = seq![
        ("grant_type"@, "authorization_code"@),
        ("code"@, code),
        ("client_id"@, client_id),
        ("code_verifier"@, verifier),
    ];
    match redirect {
        Some(r) => form.push(("redirect_uri"@, r)),
        None => form,
    }
}

/// The form body for the code → token exchange (posted
/// `application/x-www-form-urlencoded` to `token_url`).
pub fn token_exchange_form(endpoints: &OauthEndpoints, code: &str, verifier: &str) -> (r: Result<
    Vec<(String, String)>,
    OauthError,
>)
    ensures
        (endpoints.client_id is None || endpoints.token_url is None) ==> r == Err::<
            Vec<(String, String)>,
            OauthError,
        >(OauthError::Unconfigured),
        (endpoints.client_id is Some && endpoints.token_url is Some) ==> (r matches Ok(f)
            && pair_views(f@) == spec_exchange_form(
            endpoints.client_id->Some_0@,
            code@,
            verifier@,
            opt_seq(endpoints.redirect_uri),
        )),
{
    let client_id = match &endpoints.client_id {
        Some(c) => c,
        None => return Err(OauthError::Unconfigured),
    };
    if endpoints.token_url.is_none() {
        return Err(OauthError::Unconfigured);
    }
    let mut form: Vec<(String, String)> = Vec::new();
    form.push(pair("grant_type", "authorization_code"));
    form.push(pair("code", code));
    form.push(pair("client_id", client_id.as_str()));
    form.push(pair("code_verifier", verifier));
    if let Some(r) = &endpoints.redirect_uri {
        form.push(pair("redirect_uri", r.as_str()));
    }
    assert(pair_views(form@) =~= spec_exchange_form(
        endpoints.client_id->Some_0@,
        code@,
        verifier@,
        opt_seq(endpoints.redirect_uri),
    ));
    Ok(form)
}

/// Headers for authenticating a request with an OAuth token.
pub fn bearer_headers(token: &str) -> (h: Vec<(String, String)>)
    ensures
        pair_views(h@) == seq![
            ("authorization"@, "Bearer "@ + token@),
            ("anthropic-beta"@, "oauth-2025-04-20"@),
        ],
{
    let mut value = owned("Bearer ");
    value.append(token);
    let mut h: Vec<(String, String)> = Vec::new();
    h.push((owned("authorization"), value));
    h.push(pair("anthropic-beta", ANTHROPIC_OAUTH_BETA));
    assert(pair_views(h@) =~= seq![
        ("authorization"@, "Bearer "@ + token@),
        ("anthropic-beta"@, "oauth-2025-04-20"@),
    ]);
    h
}

} // verus!
