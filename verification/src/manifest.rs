//! What an installed app declares about its tools: the confirmation tier
//! of each tool, its argument schema and its compensation ("undo") call,
//! and the confirmation policy the bus derives from a tier and the trust
//! of the trigger chain.

use crate::json::{get, member, str_of, Json};
use crate::text::{decimal, owned, str_eq, u64_to_decimal};
use vstd::prelude::*;

verus! {

/// A tool's declared confirmation tier.
#[derive(Debug, Clone, Copy, PartialEq, Eq, Structural)]
pub enum Tier {
    Read,
    Write,
    Destructive,
}

pub open spec fn tier_name(t: Tier) -> Seq<char> {
    match t {
        Tier::Read => "read"@,
        Tier::Write => "write"@,
        Tier::Destructive => "destructive"@,
    }
}

impl Tier {
    pub fn as_str(&self) -> (s: &'static str)
        ensures
            s@ == tier_name(*self),
    {
        match self {
            Tier::Read => "read",
            Tier::Write => "write",
            Tier::Destructive => "destructive",
        }
    }

    /// Write and destructive tools change state; their executions are
    /// journaled.
    pub fn is_privileged(&self) -> (b: bool)
        ensures
            b == (*self != Tier::Read),
    {
        !matches!(self, Tier::Read)
    }
}

/// How the user is asked before a call runs.
#[derive(Debug, Clone, Copy, PartialEq, Eq, Structural)]
pub enum Confirmation {
    /// Runs without asking.
    Silent,
    /// An inline confirmation chip.
    Chip,
    /// A modal dialog.
    Modal,
}

pub open spec fn confirmation_name(c: Confirmation) -> Seq<char> {
    match c {
        Confirmation::Silent => "silent"@,
        Confirmation::Chip => "chip"@,
        Confirmation::Modal => "modal"@,
    }
}

impl Confirmation {
    pub fn as_str(&self) -> (s: &'static str)
        ensures
            s@ == confirmation_name(*self),
    {
        match self {
            Confirmation::Silent => "silent",
            Confirmation::Chip => "chip",
            Confirmation::Modal => "modal",
        }
    }
}

/// The policy applied to one call.
#[derive(Debug, Clone, Copy, PartialEq, Eq, Structural)]
pub struct Resolution {
    pub declared: Tier,
    pub effective: Tier,
    pub confirmation: Confirmation,
    pub escalated: bool,
}

/// One tier up (destructive stays destructive).
pub open spec fn escalate(t: Tier) -> Tier {
    match t {
        Tier::Read => Tier::Write,
        _ => Tier::Destructive,
    }
}

/// read → silent, write → chip, destructive → modal.
pub open spec fn confirmation_of(t: Tier) -> Confirmation {
    match t {
        Tier::Read => Confirmation::Silent,
        Tier::Write => Confirmation::Chip,
        Tier::Destructive => Confirmation::Modal,
    }
}

/// The tier policy: a chain that is not wholly trusted (an empty chain
/// counts as untrusted) escalates the declared tier by one.
pub open spec fn spec_resolve(declared: Tier, chain_trusted: bool) -> Resolution {
    let effective = if chain_trusted {
        declared
    } else {
        escalate(declared)
    };
    Resolution {
        declared,
        effective,
        confirmation: confirmation_of(effective),
        escalated: effective != declared,
    }
}

pub fn resolve(declared: Tier, chain_trusted: bool) -> (r: Resolution)
    ensures
        r == spec_resolve(declared, chain_trusted),
{
    let effective = if chain_trusted {
        declared
    } else {
        match declared {
            Tier::Read => Tier::Write,
            _ => Tier::Destructive,
        }
    };
    let confirmation = match effective {
        Tier::Read => Confirmation::Silent,
        Tier::Write => Confirmation::Chip,
        Tier::Destructive => Confirmation::Modal,
    };
    Resolution { declared, effective, confirmation, escalated: effective != declared }
}

/// Only a read-tier tool behind a wholly trusted chain runs unasked.
pub proof fn lemma_silent_only_for_trusted_reads(declared: Tier, chain_trusted: bool)
    ensures
        spec_resolve(declared, chain_trusted).confirmation == Confirmation::Silent <==> (declared
            == Tier::Read && chain_trusted),
        !chain_trusted && declared != Tier::Destructive ==> spec_resolve(
            declared,
            chain_trusted,
        ).escalated,
{
}

/// A tool's declared compensation: the inverse tool and how its
/// arguments are built (key → literal, `$input…` or `$result…`), members
/// in key order.
#[derive(Debug, Clone)]
pub struct UndoDecl {
    pub tool: String,
    pub map: Vec<(String, String)>,
}

/// One declared tool.
pub struct ToolDecl {
    pub name: String,
    pub description: String,
    pub tier: Tier,
    pub input_schema: Json,
    pub undo: Option<UndoDecl>,
}

/// An installed app's manifest, as far as the bus reads it.
pub struct Manifest {
    /// The manifest format version (`lisa_manifest`).
    pub version: u64,
    pub app_id: String,
    pub tools: Vec<ToolDecl>,
}

/// Index of the first tool of `tools` named `name`, or -1.
pub open spec fn tool_index(tools: Seq<ToolDecl>, name: Seq<char>) -> int
    decreases tools.len(),
{
    if tools.len() == 0 {
        -1
    } else if tools[0].name@ == name {
        0
    } else {
        let j = tool_index(tools.drop_first(), name);
        if j < 0 {
            -1
        } else {
            j + 1
        }
    }
}

proof fn lemma_tool_index(tools: Seq<ToolDecl>, name: Seq<char>)
    ensures
        -1 <= tool_index(tools, name) < tools.len(),
        tool_index(tools, name) >= 0 ==> tools[tool_index(tools, name)].name@ == name,
        forall|i: int|
            0 <= i < tools.len() && (tool_index(tools, name) < 0 || i < tool_index(tools, name))
                ==> #[trigger] tools[i].name@ != name,
    decreases tools.len(),
{
    if tools.len() > 0 {
        lemma_tool_index(tools.drop_first(), name);
        assert forall|i: int| 0 < i < tools.len() implies tools[i] == tools.drop_first()[i - 1] by {}
    }
}

impl Manifest {
    /// The first tool declared under `name`.
    pub open spec fn spec_tool(&self, name: Seq<char>) -> Option<ToolDecl> {
        let i = tool_index(self.tools@, name);
        if 0 <= i < self.tools@.len() {
            Some(self.tools@[i])
        } else {
            None
        }
    }

    /// The first tool declared under `name`.
    pub fn tool(&self, name: &str) -> (r: Option<&ToolDecl>)
        ensures
            match r {
                Some(t) => self.spec_tool(name@) == Some(*t),
                None => self.spec_tool(name@) is None,
            },
    {
        proof {
            lemma_tool_index(self.tools@, name@);
        }
        let mut i: usize = 0;
        while i < self.tools.len()
            invariant
                i <= self.tools.len(),
                forall|j: int| 0 <= j < i ==> self.tools@[j].name@ != name@,
            decreases self.tools.len() - i,
        {
            if str_eq(self.tools[i].name.as_str(), name) {
                proof {
                    lemma_tool_index(self.tools@, name@);
                    if tool_index(self.tools@, name@) < 0 || tool_index(self.tools@, name@) > i {
                        assert(self.tools@[i as int].name@ != name@);
                    }
                }
                return Some(&self.tools[i]);
            }
            i = i + 1;
        }
        proof {
            lemma_tool_index(self.tools@, name@);
            if tool_index(self.tools@, name@) >= 0 {
                let k = tool_index(self.tools@, name@);
                assert(self.tools@[k].name@ != name@);
            }
        }
        None
    }
}

// ---- trust of the trigger chain ---------------------------------------------

/// The one provenance that does not escalate a call: the user's own
/// request. Mail, web pages, files and unknown origins all do.
pub open spec fn trusted_provenance(p: Seq<char>) -> bool {
    p == "user"@
}

/// A chain is trusted when it is non-empty and every link is trusted: an
/// empty (unknown) chain fails closed.
pub open spec fn spec_chain_trusted(chain: Seq<String>) -> bool {
    chain.len() > 0 && forall|i: int| 0 <= i < chain.len() ==> trusted_provenance(#[trigger] chain[i]@)
}

pub fn chain_trusted(chain: &Vec<String>) -> (b: bool)
    ensures
        b == spec_chain_trusted(chain@),
{
    if chain.len() == 0 {
        return false;
    }
    let mut i: usize = 0;
    while i < chain.len()
        invariant
            i <= chain.len(),
            forall|k: int| 0 <= k < i ==> trusted_provenance(#[trigger] chain@[k]@),
        decreases chain.len() - i,
    {
        if !str_eq(chain[i].as_str(), "user") {
            proof {
                reveal_strlit("user");
            }
            return false;
        }
        i = i + 1;
    }
    true
}

/// An empty chain is untrusted, a single user link is trusted, and any
/// link of another origin makes the whole chain untrusted.
pub proof fn lemma_chain_trust(chain: Seq<String>, i: int)
    ensures
        chain.len() == 0 ==> !spec_chain_trusted(chain),
        chain.len() == 1 && chain[0]@ == "user"@ ==> spec_chain_trusted(chain),
        0 <= i < chain.len() && chain[i]@ != "user"@ ==> !spec_chain_trusted(chain),
{
}

// ---- argument check ---------------------------------------------------------

/// `missing required argument "<k>"`.
pub open spec fn missing_text(k: Seq<char>) -> Seq<char> {
    "missing required argument \""@ + k + "\""@
}

/// The first name of `required` (its string items, in order) that `args`
/// has no member for.
pub open spec fn first_missing(required: Seq<Json>, args: Json) -> Option<Seq<char>>
    decreases required.len(),
{
    if required.len() == 0 {
        None
    } else {
        match required[0] {
            Json::Str(k) => if member(args, k@) is None {
                Some(missing_text(k@))
            } else {
                first_missing(required.drop_first(), args)
            },
            _ => first_missing(required.drop_first(), args),
        }
    }
}

/// Why `args` do not fit a tool's schema, if they do not: an object
/// schema (`"type": "object"`) takes an object carrying every name listed
/// under `required`; other schemas constrain nothing here.
pub open spec fn args_problem(schema: Json, args: Json) -> Option<Seq<char>> {
    if str_of(member(schema, "type"@)) == Some("object"@) {
        if !(args is Object) {
            Some("arguments must be an object"@)
        } else {
            match member(schema, "required"@) {
                Some(Json::Array(r)) => first_missing(r@, args),
                _ => None,
            }
        }
    } else {
        None
    }
}

/// Check a call's arguments against the tool's input schema.
pub fn check_args(schema: &Json, args: &Json) -> (r: Result<(), String>)
    ensures
        args_problem(*schema, *args) is None ==> r is Ok,
        args_problem(*schema, *args) matches Some(m) ==> (r matches Err(e) && e@ == m),
{
    proof {
        reveal_strlit("object");
    }
    let is_object_schema = match get(schema, "type") {
        Some(Json::Str(t)) => str_eq(t.as_str(), "object"),
        _ => false,
    };
    if !is_object_schema {
        return Ok(());
    }
    match args {
        Json::Object(_) => {},
        _ => return Err(owned("arguments must be an object")),
    }
    let items = match get(schema, "required") {
        Some(Json::Array(items)) => items,
        _ => return Ok(()),
    };
    let mut i: usize = 0;
    assert(items@.skip(0) =~= items@);
    assert(args_problem(*schema, *args) == first_missing(items@, *args));
    while i < items.len()
        invariant
            i <= items.len(),
            args_problem(*schema, *args) == first_missing(items@, *args),
            first_missing(items@, *args) == first_missing(items@.skip(i as int), *args),
        decreases items.len() - i,
    {
        assert(items@.skip(i as int).drop_first() =~= items@.skip(i as int + 1));
        assert(items@.skip(i as int)[0] == items@[i as int]);
        if let Json::Str(k) = &items[i] {
            if get(args, k.as_str()).is_none() {
                assert(first_missing(items@.skip(i as int), *args) == Some(missing_text(k@)));
                let mut m = owned("missing required argument \"");
                m.append(k.as_str());
                m.append("\"");
                assert(m@ == missing_text(k@));
                assert(args_problem(*schema, *args) == first_missing(items@, *args));
                return Err(m);
            }
        }
        i = i + 1;
    }
    assert(items@.skip(i as int) =~= Seq::<Json>::empty());
    Ok(())
}

// ---- manifest validation ----------------------------------------------------

/// Why a manifest is refused.
#[derive(Debug)]
pub enum ManifestError {
    UnsupportedVersion(u64),
    EmptyAppId,
    EmptyToolName,
    DuplicateTool(String),
    SchemaNotObject(String),
}

pub open spec fn manifest_error_text(e: ManifestError) -> Seq<char> {
    match e {
        ManifestError::UnsupportedVersion(v) => "unsupported lisa_manifest version "@ + decimal(v as nat),
        ManifestError::EmptyAppId => "app_id must not be empty"@,
        ManifestError::EmptyToolName => "tool name must not be empty"@,
        ManifestError::DuplicateTool(n) => "duplicate tool "@ + n@,
        ManifestError::SchemaNotObject(n) => "input_schema of "@ + n@ + " must be an object"@,
    }
}

impl ManifestError {
    pub fn message(&self) -> (s: String)
        ensures
            s@ == manifest_error_text(*self),
    {
        match self {
            ManifestError::UnsupportedVersion(v) => {
                let mut s = owned("unsupported lisa_manifest version ");
                s.append(u64_to_decimal(*v).as_str());
                s
            },
            ManifestError::EmptyAppId => owned("app_id must not be empty"),
            ManifestError::EmptyToolName => owned("tool name must not be empty"),
            ManifestError::DuplicateTool(n) => {
                let mut s = owned("duplicate tool ");
                s.append(n.as_str());
                s
            },
            ManifestError::SchemaNotObject(n) => {
                let mut s = owned("input_schema of ");
                s.append(n.as_str());
                s.append(" must be an object");
                s
            },
        }
    }
}

/// The first problem among the declared tools, in declaration order: a
/// tool without a name, a name declared twice, or an input schema that is
/// not a JSON object.
pub open spec fn tools_problem(tools: Seq<ToolDecl>) -> Option<Seq<char>>
    decreases tools.len(),
{
    if tools.len() == 0 {
        None
    } else {
        let prev = tools.drop_last();
        let t = tools.last();
        match tools_problem(prev) {
            Some(p) => Some(p),
            None => if t.name@.len() == 0 {
                Some("tool name must not be empty"@)
            } else if exists|j: int| 0 <= j < prev.len() && #[trigger] prev[j].name@ == t.name@ {
                Some("duplicate tool "@ + t.name@)
            } else if !(t.input_schema is Object) {
                Some("input_schema of "@ + t.name@ + " must be an object"@)
            } else {
                None
            },
        }
    }
}

/// Why a manifest is refused, if it is: only format version 1 is
/// understood, the app id must not be empty, and the tools must be sound.
pub open spec fn manifest_problem(m: Manifest) -> Option<Seq<char>> {
    if m.version != 1 {
        Some("unsupported lisa_manifest version "@ + decimal(m.version as nat))
    } else if m.app_id@.len() == 0 {
        Some("app_id must not be empty"@)
    } else {
        tools_problem(m.tools@)
    }
}

/// Validate a manifest before it is installed.
pub fn validate(m: &Manifest) -> (r: Result<(), ManifestError>)
    ensures
        manifest_problem(*m) is None <==> r is Ok,
        r matches Err(e) ==> manifest_problem(*m) == Some(manifest_error_text(e)),
{
    if m.version != 1 {
        return Err(ManifestError::UnsupportedVersion(m.version));
    }
    if m.app_id.as_str().unicode_len() == 0 {
        return Err(ManifestError::EmptyAppId);
    }
    let n = m.tools.len();
    let mut i: usize = 0;
    assert(m.tools@.take(0) =~= Seq::<ToolDecl>::empty());
    while i < n
        invariant
            n == m.tools@.len(),
            i <= n,
            m.version == 1,
            m.app_id@.len() > 0,
            tools_problem(m.tools@.take(i as int)) is None,
        decreases n - i,
    {
        let ghost prefix = m.tools@.take(i as int + 1);
        assert(prefix.drop_last() =~= m.tools@.take(i as int));
        assert(prefix.last() == m.tools@[i as int]);
        let t = &m.tools[i];
        if t.name.as_str().unicode_len() == 0 {
            proof {
                assert(tools_problem(prefix) == Some("tool name must not be empty"@));
                lemma_problem_stays(m.tools@, i as int + 1);
            }
            return Err(ManifestError::EmptyToolName);
        }
        let mut j: usize = 0;
        while j < i
            invariant
                j <= i,
                i < n,
                n == m.tools@.len(),
                forall|k: int| 0 <= k < j ==> m.tools@[k].name@ != m.tools@[i as int].name@,
                prefix == m.tools@.take(i as int + 1),
                m.tools@[i as int].name@.len() > 0,
                m.version == 1,
                m.app_id@.len() > 0,
                prefix.drop_last() == m.tools@.take(i as int),
                prefix.last() == m.tools@[i as int],
                tools_problem(m.tools@.take(i as int)) is None,
            decreases i - j,
        {
            if str_eq(m.tools[j].name.as_str(), m.tools[i].name.as_str()) {
                proof {
                    assert(prefix.drop_last()[j as int] == m.tools@[j as int]);
                    assert(prefix.drop_last()[j as int].name@ == prefix.last().name@);
                    assert(prefix.last().name@.len() > 0);
                    assert(tools_problem(prefix) == Some("duplicate tool "@ + m.tools@[i as int].name@));
                    lemma_problem_stays(m.tools@, i as int + 1);
                }
                return Err(ManifestError::DuplicateTool(m.tools[i].name.clone()));
            }
            j = j + 1;
        }
        proof {
            assert forall|k: int| 0 <= k < prefix.drop_last().len() implies #[trigger] prefix.drop_last()[k].name@
                != prefix.last().name@ by {
                assert(prefix.drop_last()[k] == m.tools@[k]);
            }
        }
        match &t.input_schema {
            Json::Object(_) => {},
            _ => {
                proof {
                    assert(tools_problem(prefix) == Some("input_schema of "@ + t.name@ + " must be an object"@));
                    lemma_problem_stays(m.tools@, i as int + 1);
                }
                return Err(ManifestError::SchemaNotObject(t.name.clone()));
            },
        }
        i = i + 1;
    }
    assert(m.tools@.take(n as int) =~= m.tools@);
    Ok(())
}

/// A problem found in a prefix of the tools is the problem of them all.
proof fn lemma_problem_stays(tools: Seq<ToolDecl>, k: int)
    requires
        0 <= k <= tools.len(),
        tools_problem(tools.take(k)) is Some,
    ensures
        tools_problem(tools) == tools_problem(tools.take(k)),
    decreases tools.len() - k,
{
    if k < tools.len() {
        let next = tools.take(k + 1);
        assert(next.drop_last() =~= tools.take(k));
        lemma_problem_stays(tools, k + 1);
    } else {
        assert(tools.take(k) =~= tools);
    }
}

} // verus!
