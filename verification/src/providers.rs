//! The remote-provider registry: providers are rows, not code. Built-in
//! rows for endpoints verified against provider documentation, plus
//! user-supplied OpenAI-compatible rows (persisted by the broker in
//! `providers.toml`).

use crate::text::{owned, starts_with, str_eq};
use vstd::prelude::*;

verus! {

/// How the credential rides on the upstream request.
#[derive(Debug, Clone, Copy, PartialEq, Eq, Structural)]
pub enum AuthStyle {
    /// `Authorization: Bearer <key>`.
    Bearer,
    /// `x-api-key: <key>` + `anthropic-version: 2023-06-01`.
    AnthropicApiKey,
    /// `Authorization: Bearer <oauth token>` + `anthropic-beta`.
    AnthropicOauth,
}

/// The wire dialect the provider speaks.
#[derive(Debug, Clone, Copy, PartialEq, Eq, Structural)]
pub enum Dialect {
    /// `POST {base_url}/chat/completions`, OpenAI request/response shape.
    OpenaiCompat,
    /// Native `POST {base_url}/v1/messages`.
    AnthropicMessages,
}

/// One provider row.
#[derive(Debug)]
pub struct ProviderSpec {
    pub id: String,
    pub display_name: String,
    /// None only when the endpoint is registered but not yet configured.
    pub base_url: Option<String>,
    pub auth: AuthStyle,
    pub dialect: Dialect,
    /// Human-readable caveats surfaced in Settings.
    pub notes: String,
    pub builtin: bool,
}

/// A provider row as the specification speaks of it.
pub struct ProviderRow {
    pub id: Seq<char>,
    pub display_name: Seq<char>,
    pub base_url: Option<Seq<char>>,
    pub auth: AuthStyle,
    pub dialect: Dialect,
    pub notes: Seq<char>,
    pub builtin: bool,
}

impl View for ProviderSpec {
    type V = ProviderRow;

    open spec fn view(&self) -> ProviderRow {
        ProviderRow {
            id: self.id@,
            display_name: self.display_name@,
            base_url: match self.base_url {
                Some(u) => Some(u@),
                None => None,
            },
            auth: self.auth,
            dialect: self.dialect,
            notes: self.notes@,
            builtin: self.builtin,
        }
    }
}

impl Clone for ProviderSpec {
    fn clone(&self) -> (r: Self)
        ensures
            r@ == self@,
    {
        ProviderSpec {
            id: self.id.clone(),
            display_name: self.display_name.clone(),
            base_url: match &self.base_url {
                Some(u) => Some(u.clone()),
                None => None,
            },
            auth: self.auth,
            dialect: self.dialect,
            notes: self.notes.clone(),
            builtin: self.builtin,
        }
    }
}

pub open spec fn row(
    id: Seq<char>,
    name: Seq<char>,
    url: Seq<char>,
    auth: AuthStyle,
    dialect: Dialect,
    notes: Seq<char>,
) -> ProviderRow {
    ProviderRow {
        id,
        display_name: name,
        base_url: Some(url),
        auth,
        dialect,
        notes,
        builtin: true,
    }
}

/// The built-in rows, every URL verified against the provider's public
/// documentation.
pub open spec fn builtin_rows() -> Seq<ProviderRow> {
    seq![
        row(
            "openai"@,
            "OpenAI"@,
            "https://api.openai.com/v1"@,
            AuthStyle::Bearer,
            Dialect::OpenaiCompat,
            "OpenAI API (chat completions)."@,
        ),
        row(
            "anthropic"@,
            "Anthropic"@,
            "https://api.anthropic.com"@,
            AuthStyle::AnthropicApiKey,
            Dialect::AnthropicMessages,
            "Native Messages API; OAuth account sign-in once Anthropic publishes a registerable client (ADR-0008 §4)."@,
        ),
        row(
            "tinker"@,
            "Tinker (Thinking Machines)"@,
            "https://tinker.thinkingmachines.dev/services/tinker-prod/oai/api/v1"@,
            AuthStyle::Bearer,
            Dialect::OpenaiCompat,
            "OpenAI-compatible sampling (beta); models are tinker:// checkpoint URIs. The same credential serves the M6 adapter-training lane."@,
        ),
        row(
            "together"@,
            "Together.ai"@,
            "https://api.together.ai/v1"@,
            AuthStyle::Bearer,
            Dialect::OpenaiCompat,
            "OpenAI-compatible; namespaced model ids (org/model)."@,
        ),
        row(
            "fireworks"@,
            "Fireworks.ai"@,
            "https://api.fireworks.ai/inference/v1"@,
            AuthStyle::Bearer,
            Dialect::OpenaiCompat,
            "OpenAI-compatible chat completions."@,
        ),
    ]
}

pub open spec fn rows_of(v: Seq<ProviderSpec>) -> Seq<ProviderRow> {
    Seq::new(v.len(), |i: int| v[i]@)
}

fn builtin(
    id: &str,
    name: &str,
    url: &str,
    auth: AuthStyle,
    dialect: Dialect,
    notes: &str,
) -> (p: ProviderSpec)
    ensures
        p@ == row(id@, name@, url@, auth, dialect, notes@),
{
    ProviderSpec {
        id: owned(id),
        display_name: owned(name),
        base_url: Some(owned(url)),
        auth,
        dialect,
        notes: owned(notes),
        builtin: true,
    }
}

/// The built-in provider table.
pub fn builtin_providers() -> (v: Vec<ProviderSpec>)
    ensures
        rows_of(v@) == builtin_rows(),
{
    let mut v: Vec<ProviderSpec> = Vec::new();
    v.push(
        builtin(
            "openai",
            "OpenAI",
            "https://api.openai.com/v1",
            AuthStyle::Bearer,
            Dialect::OpenaiCompat,
            "OpenAI API (chat completions).",
        ),
    );
    v.push(
        builtin(
            "anthropic",
            "Anthropic",
            "https://api.anthropic.com",
            AuthStyle::AnthropicApiKey,
            Dialect::AnthropicMessages,
            "Native Messages API; OAuth account sign-in once Anthropic publishes a registerable client (ADR-0008 §4).",
        ),
    );
    v.push(
        builtin(
            "tinker",
            "Tinker (Thinking Machines)",
            "https://tinker.thinkingmachines.dev/services/tinker-prod/oai/api/v1",
            AuthStyle::Bearer,
            Dialect::OpenaiCompat,
            "OpenAI-compatible sampling (beta); models are tinker:// checkpoint URIs. The same credential serves the M6 adapter-training lane.",
        ),
    );
    v.push(
        builtin(
            "together",
            "Together.ai",
            "https://api.together.ai/v1",
            AuthStyle::Bearer,
            Dialect::OpenaiCompat,
            "OpenAI-compatible; namespaced model ids (org/model).",
        ),
    );
    v.push(
        builtin(
            "fireworks",
            "Fireworks.ai",
            "https://api.fireworks.ai/inference/v1",
            AuthStyle::Bearer,
            Dialect::OpenaiCompat,
            "OpenAI-compatible chat completions.",
        ),
    );
    assert(rows_of(v@) =~= builtin_rows());
    v
}

/// A provider id: non-empty, lowercase ASCII letters, digits, `-`, `_`.
pub open spec fn spec_valid_id(id: Seq<char>) -> bool {
    id.len() > 0 && forall|i: int|
        0 <= i < id.len() ==> (('a' <= #[trigger] id[i] && id[i] <= 'z') || ('0' <= id[i] && id[i]
            <= '9') || id[i] == '-' || id[i] == '_')
}

pub fn valid_id(id: &str) -> (b: bool)
    ensures
        b == spec_valid_id(id@),
{
    let n = id.unicode_len();
    if n == 0 {
        return false;
    }
    let mut i: usize = 0;
    while i < n
        invariant
            n == id@.len(),
            i <= n,
            forall|j: int|
                0 <= j < i ==> (('a' <= #[trigger] id@[j] && id@[j] <= 'z') || ('0' <= id@[j]
                    && id@[j] <= '9') || id@[j] == '-' || id@[j] == '_'),
        decreases n - i,
    {
        let c = id.get_char(i);
        if !(('a' <= c && c <= 'z') || ('0' <= c && c <= '9') || c == '-' || c == '_') {
            return false;
        }
        i = i + 1;
    }
    true
}

/// `s` without its trailing `/` characters.
pub open spec fn trim_slashes(s: Seq<char>) -> Seq<char>
    decreases s.len(),
{
    if s.len() > 0 && s.last() == '/' {
        trim_slashes(s.drop_last())
    } else {
        s
    }
}

/// Strip every trailing `/`.
pub fn trim_trailing_slashes(s: &str) -> (r: String)
    ensures
        r@ == trim_slashes(s@),
{
    let mut n = s.unicode_len();
    assert(s@.take(n as int) =~= s@);
    while n > 0 && s.get_char(n - 1) == '/'
        invariant
            n <= s@.len(),
            trim_slashes(s@.take(n as int)) == trim_slashes(s@),
        decreases n,
    {
        assert(s@.take(n as int).drop_last() =~= s@.take(n as int - 1));
        n = n - 1;
    }
    assert(trim_slashes(s@.take(n as int)) == s@.take(n as int));
    owned(s.substring_char(0, n))
}

/// Refusals of registry changes.
#[derive(Debug)]
pub enum RegistryError {
    Unknown(String),
    Exists(String),
    Builtin(String),
    InvalidId(String),
    InvalidUrl(String),
}

/// The error's message.
pub open spec fn registry_error_text(e: RegistryError) -> Seq<char> {
    match e {
        RegistryError::Unknown(x) => "unknown provider: "@ + x@,
        RegistryError::Exists(x) => "provider id already exists: "@ + x@,
        RegistryError::Builtin(x) => "built-in providers cannot be removed: "@ + x@,
        RegistryError::InvalidId(x) => "invalid provider id \""@ + x@
            + "\": lowercase letters, digits, '-', '_' only"@,
        RegistryError::InvalidUrl(x) => "invalid base_url \""@ + x@
            + "\": must start with https:// (or http:// for tests)"@,
    }
}

impl RegistryError {
    /// The message of the refusal (the offending value in double quotes).
    pub fn message(&self) -> (s: String)
        ensures
            s@ == registry_error_text(*self),
    {
        let (head, x, tail) = match self {
            RegistryError::Unknown(x) => ("unknown provider: ", x, ""),
            RegistryError::Exists(x) => ("provider id already exists: ", x, ""),
            RegistryError::Builtin(x) => ("built-in providers cannot be removed: ", x, ""),
            RegistryError::InvalidId(x) => (
                "invalid provider id \"",
                x,
                "\": lowercase letters, digits, '-', '_' only",
            ),
            RegistryError::InvalidUrl(x) => (
                "invalid base_url \"",
                x,
                "\": must start with https:// (or http:// for tests)",
            ),
        };
        let mut s = owned(head);
        s.append(x.as_str());
        s.append(tail);
        proof {
            reveal_strlit("");
        }
        s
    }
}

/// Index of the first row with `id`, or -1.
pub open spec fn find_row(rows: Seq<ProviderRow>, id: Seq<char>) -> int
    decreases rows.len(),
{
    if rows.len() == 0 {
        -1
    } else if rows[0].id == id {
        0
    } else {
        let j = find_row(rows.drop_first(), id);
        if j < 0 {
            -1
        } else {
            j + 1
        }
    }
}

proof fn lemma_find_row(rows: Seq<ProviderRow>, id: Seq<char>)
    ensures
        -1 <= find_row(rows, id) < rows.len(),
        find_row(rows, id) == -1 <==> (forall|i: int| 0 <= i < rows.len() ==> rows[i].id != id),
        find_row(rows, id) >= 0 ==> rows[find_row(rows, id)].id == id,
        find_row(rows, id) >= 0 ==> (forall|i: int| 0 <= i < find_row(rows, id) ==> rows[i].id != id),
    decreases rows.len(),
{
    if rows.len() > 0 {
        lemma_find_row(rows.drop_first(), id);
        if rows[0].id != id {
            assert forall|i: int| 0 < i < rows.len() implies rows[i] == rows.drop_first()[i - 1] by {}
        }
    }
}

/// Built-in rows plus persisted custom rows.
pub struct Registry {
    path: String,
    custom: Vec<ProviderSpec>,
}

impl Registry {
    /// The custom rows, in registration order.
    pub closed spec fn customs(&self) -> Seq<ProviderRow> {
        rows_of(self.custom@)
    }

    /// Where the custom rows are persisted.
    pub closed spec fn file(&self) -> Seq<char> {
        self.path@
    }

    /// Every row: built-ins first, then the custom rows.
    pub open spec fn rows(&self) -> Seq<ProviderRow> {
        builtin_rows() + self.customs()
    }

    /// A registry over the custom rows read from `providers.toml`.
    pub fn from_custom(path: String, custom: Vec<ProviderSpec>) -> (r: Registry)
        ensures
            r.customs() == rows_of(custom@),
            r.file() == path@,
    {
        Registry { path, custom }
    }

    pub fn path(&self) -> (p: &str)
        ensures
            p@ == self.file(),
    {
        self.path.as_str()
    }

    /// The custom rows (what `providers.toml` holds).
    pub fn custom_rows(&self) -> (v: Vec<ProviderSpec>)
        ensures
            rows_of(v@) == self.customs(),
    {
        let mut v: Vec<ProviderSpec> = Vec::new();
        let mut i: usize = 0;
        while i < self.custom.len()
            invariant
                i <= self.custom.len(),
                rows_of(v@) =~= rows_of(self.custom@).take(i as int),
            decreases self.custom.len() - i,
        {
            let ghost prev = rows_of(v@);
            v.push(self.custom[i].clone());
            assert(rows_of(v@) =~= prev.push(self.custom@[i as int]@));
            i = i + 1;
        }
        v
    }

    /// Every provider: built-ins, then custom rows.
    pub fn list(&self) -> (v: Vec<ProviderSpec>)
        ensures
            rows_of(v@) == self.rows(),
    {
        let mut all = builtin_providers();
        let ghost b = rows_of(all@);
        let mut i: usize = 0;
        while i < self.custom.len()
            invariant
                i <= self.custom.len(),
                b == builtin_rows(),
                rows_of(all@) =~= b + rows_of(self.custom@).take(i as int),
            decreases self.custom.len() - i,
        {
            let ghost prev = rows_of(all@);
            all.push(self.custom[i].clone());
            assert(rows_of(all@) =~= prev.push(self.custom@[i as int]@));
            i = i + 1;
        }
        assert(rows_of(self.custom@).take(self.custom.len() as int) =~= self.customs());
        all
    }

    /// The first provider with this id.
    pub fn get(&self, id: &str) -> (r: Result<ProviderSpec, RegistryError>)
        ensures
            match r {
                Ok(p) => find_row(self.rows(), id@) >= 0 && p@ == self.rows()[find_row(
                    self.rows(),
                    id@,
                )],
                Err(RegistryError::Unknown(s)) => find_row(self.rows(), id@) == -1 && s@ == id@,
                _ => false,
            },
    {
        let all = self.list();
        proof {
            lemma_find_row(self.rows(), id@);
        }
        let mut i: usize = 0;
        while i < all.len()
            invariant
                i <= all.len(),
                rows_of(all@) == self.rows(),
                forall|j: int| 0 <= j < i ==> self.rows()[j].id != id@,
            decreases all.len() - i,
        {
            if str_eq(all[i].id.as_str(), id) {
                assert(self.rows()[i as int] == all@[i as int]@);
                proof {
                    lemma_find_row(self.rows(), id@);
                }
                assert(find_row(self.rows(), id@) == i as int);
                return Ok(all[i].clone());
            }
            assert(self.rows()[i as int] == all@[i as int]@);
            i = i + 1;
        }
        Err(RegistryError::Unknown(owned(id)))
    }

    fn has_id(&self, id: &str) -> (b: bool)
        ensures
            b == (find_row(self.rows(), id@) >= 0),
    {
        match self.get(id) {
            Ok(_) => true,
            Err(_) => false,
        }
    }

    /// Register a user-supplied OpenAI-compatible endpoint. The id must be
    /// valid and unused, the URL `https://` (or `http://`); the stored URL
    /// loses its trailing slashes.
    pub fn add_custom(&mut self, id: &str, display_name: &str, base_url: &str) -> (r: Result<
        (),
        RegistryError,
    >)
        ensures
            final(self).file() == old(self).file(),
            match r {
                Ok(()) => spec_valid_id(id@) && url_ok(base_url@) && find_row(
                    old(self).rows(),
                    id@,
                ) == -1 && final(self).customs() == old(self).customs().push(
                    custom_row(id@, display_name@, base_url@),
                ),
                Err(e) => final(self).customs() == old(self).customs() && match e {
                    RegistryError::InvalidId(s) => !spec_valid_id(id@) && s@ == id@,
                    RegistryError::InvalidUrl(s) => spec_valid_id(id@) && !url_ok(base_url@) && s@
                        == base_url@,
                    RegistryError::Exists(s) => spec_valid_id(id@) && url_ok(base_url@) && find_row(
                        old(self).rows(),
                        id@,
                    ) >= 0 && s@ == id@,
                    _ => false,
                },
            },
    {
        if !valid_id(id) {
            return Err(RegistryError::InvalidId(owned(id)));
        }
        if !(starts_with(base_url, "https://") || starts_with(base_url, "http://")) {
            return Err(RegistryError::InvalidUrl(owned(base_url)));
        }
        if self.has_id(id) {
            return Err(RegistryError::Exists(owned(id)));
        }
        self.custom.push(
            ProviderSpec {
                id: owned(id),
                display_name: owned(display_name),
                base_url: Some(trim_trailing_slashes(base_url)),
                auth: AuthStyle::Bearer,
                dialect: Dialect::OpenaiCompat,
                notes: owned("User-supplied OpenAI-compatible endpoint."),
                builtin: false,
            },
        );
        assert(rows_of(self.custom@) =~= rows_of(old(self).custom@).push(
            custom_row(id@, display_name@, base_url@),
        ));
        Ok(())
    }

    /// Remove every custom row with `id`. Built-in ids are refused; an id
    /// with no custom row is unknown.
    pub fn remove_custom(&mut self, id: &str) -> (r: Result<(), RegistryError>)
        ensures
            final(self).file() == old(self).file(),
            match r {
                Ok(()) => find_row(builtin_rows(), id@) == -1 && find_row(old(self).customs(), id@)
                    >= 0 && final(self).customs() == old(self).customs().filter(
                    |p: ProviderRow| p.id != id@,
                ),
                Err(e) => final(self).customs() == old(self).customs() && match e {
                    RegistryError::Builtin(s) => find_row(builtin_rows(), id@) >= 0 && s@ == id@,
                    RegistryError::Unknown(s) => find_row(builtin_rows(), id@) == -1 && find_row(
                        old(self).customs(),
                        id@,
                    ) == -1 && s@ == id@,
                    _ => false,
                },
            },
    {
        let builtins = builtin_providers();
        proof {
            lemma_find_row(builtin_rows(), id@);
            lemma_find_row(self.customs(), id@);
        }
        let mut i: usize = 0;
        while i < builtins.len()
            invariant
                i <= builtins.len(),
                rows_of(builtins@) == builtin_rows(),
                forall|j: int| 0 <= j < i ==> builtin_rows()[j].id != id@,
            decreases builtins.len() - i,
        {
            assert(builtin_rows()[i as int] == builtins@[i as int]@);
            if str_eq(builtins[i].id.as_str(), id) {
                proof {
                    lemma_find_row(builtin_rows(), id@);
                }
                return Err(RegistryError::Builtin(owned(id)));
            }
            i = i + 1;
        }
        let ghost before = self.customs();
        let mut kept: Vec<ProviderSpec> = Vec::new();
        let mut found = false;
        let mut k: usize = 0;
        while k < self.custom.len()
            invariant
                k <= self.custom.len(),
                before == rows_of(self.custom@),
                self.file() == old(self).file(),
                self.custom@ == old(self).custom@,
                rows_of(kept@) == before.take(k as int).filter(|p: ProviderRow| p.id != id@),
                found == exists|j: int| 0 <= j < k && before[j].id == id@,
            decreases self.custom.len() - k,
        {
            proof {
                assert(before.take(k as int + 1).drop_last() =~= before.take(k as int));
                reveal_with_fuel(Seq::filter, 1);
                assert(before[k as int] == self.custom@[k as int]@);
            }
            let ghost prev = rows_of(kept@);
            if str_eq(self.custom[k].id.as_str(), id) {
                found = true;
            } else {
                kept.push(self.custom[k].clone());
                assert(rows_of(kept@) =~= prev.push(before[k as int]));
            }
            k = k + 1;
        }
        assert(before.take(self.custom.len() as int) =~= before);
        if !found {
            return Err(RegistryError::Unknown(owned(id)));
        }
        self.custom = kept;
        Ok(())
    }
}

/// A base URL the registry accepts.
pub open spec fn url_ok(u: Seq<char>) -> bool {
    crate::text::is_prefix("https://"@, u) || crate::text::is_prefix("http://"@, u)
}

/// The row a custom registration stores.
pub open spec fn custom_row(id: Seq<char>, name: Seq<char>, url: Seq<char>) -> ProviderRow {
    ProviderRow {
        id,
        display_name: name,
        base_url: Some(trim_slashes(url)),
        auth: AuthStyle::Bearer,
        dialect: Dialect::OpenaiCompat,
        notes: "User-supplied OpenAI-compatible endpoint."@,
        builtin: false,
    }
}

/// Read after write: once `add_custom` accepts a row, `get` finds exactly
/// that row (ids are unique at registration, so the first match is it).
pub proof fn lemma_added_row_is_found(rows_before: Seq<ProviderRow>, row: ProviderRow)
    requires
        find_row(rows_before, row.id) == -1,
    ensures
        find_row(rows_before.push(row), row.id) == rows_before.len(),
        (rows_before.push(row))[find_row(rows_before.push(row), row.id)] == row,
{
    lemma_find_row(rows_before, row.id);
    lemma_find_row(rows_before.push(row), row.id);
    let r = rows_before.push(row);
    assert(r[rows_before.len() as int].id == row.id);
    assert forall|i: int| 0 <= i < rows_before.len() implies r[i].id != row.id by {
        assert(r[i] == rows_before[i]);
    }
}

/// After `remove_custom` succeeds, no custom row carries the id, and the
/// built-in rows are untouched.
pub proof fn lemma_removed_row_is_gone(customs: Seq<ProviderRow>, id: Seq<char>)
    ensures
        find_row(customs.filter(|p: ProviderRow| p.id != id), id) == -1,
{
    let f = |p: ProviderRow| p.id != id;
    let k = customs.filter(f);
    lemma_find_row(k, id);
    assert forall|i: int| 0 <= i < k.len() implies k[i].id != id by {
        customs.lemma_filter_pred(f, i);
    }
}

} // verus!
