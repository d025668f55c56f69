//! JSON Schema → GBNF grammar conversion for guided generation.
//!
//! A caller-supplied JSON Schema compiles into a GBNF grammar that the
//! engine enforces during sampling, so structured output is valid by
//! construction. Supported subset: `object` (every declared property, in
//! member order), `array` (with `minItems`/`maxItems` bounds), `string`
//! (with `minLength`/`maxLength` bounds), `number`, `integer`, `boolean`,
//! `null`, and `enum`/`const` of scalars.
//!
//! The compiler keeps an ordered table of named rules. A rule is defined at
//! most once (a second definition of a name is ignored), primitives are
//! shared, and non-primitive sub-schemas are bound to rules named after
//! their path (`root-author`, `root-tags-item`). The grammar text lists the
//! `root` rule first, then every other rule in definition order, one
//! `name ::= body` line each.

use crate::json::{as_str, as_u64, find_index, find_key, lemma_find_key, member, obj_get, spec_get, str_of, u64_of, Json};
use crate::text::{ascii_alnum, decimal, is_ascii_alnum, owned, push_char, str_eq, strings_view, u64_to_decimal};
use vstd::prelude::*;

verus! {

/// The two ways a schema can be refused.
#[derive(Clone, Copy, Debug, PartialEq, Eq, Structural)]
pub enum GrammarErrorKind {
    /// The schema is malformed.
    Invalid,
    /// The schema uses a construct outside the supported subset.
    Unsupported,
}

/// How a refusal reads.
pub open spec fn grammar_error_text(e: (GrammarErrorKind, Seq<char>)) -> Seq<char> {
    match e.0 {
        GrammarErrorKind::Invalid => "invalid schema: "@ + e.1,
        GrammarErrorKind::Unsupported => "unsupported schema construct (M0 subset): "@ + e.1,
    }
}

/// A refused schema, with a human-readable reason.
#[derive(Debug)]
pub enum GrammarError {
    Invalid(String),
    Unsupported(String),
}

impl View for GrammarError {
    type V = (GrammarErrorKind, Seq<char>);

    open spec fn view(&self) -> (GrammarErrorKind, Seq<char>) {
        match self {
            GrammarError::Invalid(m) => (GrammarErrorKind::Invalid, m@),
            GrammarError::Unsupported(m) => (GrammarErrorKind::Unsupported, m@),
        }
    }
}

impl GrammarError {
    /// The kind of refusal.
    pub fn kind(&self) -> (k: GrammarErrorKind)
        ensures
            k == self@.0,
    {
        match self {
            GrammarError::Invalid(_) => GrammarErrorKind::Invalid,
            GrammarError::Unsupported(_) => GrammarErrorKind::Unsupported,
        }
    }

    /// The refusal, for display: its kind and reason.
    pub fn message(&self) -> (m: String)
        ensures
            m@ == grammar_error_text(self@),
    {
        match self {
            GrammarError::Invalid(m) => {
                let mut s = crate::text::owned("invalid schema: ");
                s.append(m.as_str());
                s
            },
            GrammarError::Unsupported(m) => {
                let mut s = crate::text::owned("unsupported schema construct (M0 subset): ");
                s.append(m.as_str());
                s
            },
        }
    }
}

/// A refusal as the specification speaks of it.
pub type SpecError = (GrammarErrorKind, Seq<char>);

/// The rule table: (name, body) pairs in definition order.
pub type Rules = Seq<(Seq<char>, Seq<char>)>;

/// One compilation step: the rule table afterwards, and the rule body (or
/// the refusal) it produced.
pub type Step = (Rules, Result<Seq<char>, SpecError>);

pub open spec fn has_rule(r: Rules, name: Seq<char>) -> bool {
    exists|i: int| 0 <= i < r.len() && r[i].0 == name
}

/// Define `name` unless it is already defined (first definition wins).
pub open spec fn define(r: Rules, name: Seq<char>, body: Seq<char>) -> Rules {
    if has_rule(r, name) {
        r
    } else {
        r.push((name, body))
    }
}

/// No name is defined twice.
pub open spec fn names_distinct(r: Rules) -> bool {
    forall|i: int, j: int| 0 <= i < r.len() && 0 <= j < r.len() && i != j ==> r[i].0 != r[j].0
}

/// The shared primitive rules.
#[derive(Clone, Copy, Debug, PartialEq, Eq, Structural)]
pub enum Prim {
    Space,
    Str,
    Number,
    Integer,
    Boolean,
    Null,
}

pub open spec fn prim_name(p: Prim) -> Seq<char> {
    match p {
        Prim::Space => "space"@,
        Prim::Str => "string"@,
        Prim::Number => "number"@,
        Prim::Integer => "integer"@,
        Prim::Boolean => "boolean"@,
        Prim::Null => "null"@,
    }
}

pub open spec fn prim_body(p: Prim) -> Seq<char> {
    match p {
        Prim::Space => r#"" "?"#@,
        Prim::Str => r#""\"" ( [^"\\] | "\\" (["\\bfnrt] | "u" [0-9a-fA-F] [0-9a-fA-F] [0-9a-fA-F] [0-9a-fA-F]) )* "\"" space"#@,
        Prim::Number => r#""-"? ([0-9] | [1-9] [0-9]*) ("." [0-9]+)? ([eE] [-+]? [0-9]+)? space"#@,
        Prim::Integer => r#""-"? ([0-9] | [1-9] [0-9]*) space"#@,
        Prim::Boolean => r#"("true" | "false") space"#@,
        Prim::Null => r#""null" space"#@,
    }
}

/// The character class of a bounded string.
pub open spec fn char_rule_body() -> Seq<char> {
    r#"( [^"\\] | "\\" (["\\bfnrt] | "u" [0-9a-fA-F] [0-9a-fA-F] [0-9a-fA-F] [0-9a-fA-F]) )"#@
}

/// Define primitive `p` (and `space`, which every other primitive uses).
pub open spec fn spec_primitive(r: Rules, p: Prim) -> Rules {
    let r1 = if p != Prim::Space {
        define(r, prim_name(Prim::Space), prim_body(Prim::Space))
    } else {
        r
    };
    define(r1, prim_name(p), prim_body(p))
}

/// Escape `"` and `\` with a backslash.
pub open spec fn escape_char(c: char) -> Seq<char> {
    if c == '"' {
        seq!['\\', '"']
    } else if c == '\\' {
        seq!['\\', '\\']
    } else {
        seq![c]
    }
}

pub open spec fn escaped(s: Seq<char>) -> Seq<char>
    decreases s.len(),
{
    if s.len() == 0 {
        Seq::empty()
    } else {
        escaped(s.drop_last()) + escape_char(s.last())
    }
}

/// A GBNF terminal matching exactly the text `s`.
pub open spec fn gbnf_literal(s: Seq<char>) -> Seq<char> {
    seq!['"'] + escaped(s) + seq!['"']
}

/// Rule-name fragment for a property key: ASCII letters and digits are
/// kept, every other character becomes `-`.
pub open spec fn sanitized(k: Seq<char>) -> Seq<char> {
    Seq::new(k.len(), |i: int| if is_ascii_alnum(k[i]) { k[i] } else { '-' })
}

/// GBNF repetition suffix for `{min,max}`: `*` when unbounded from zero,
/// `{n,}` or `{n,m}` otherwise.
pub open spec fn repetition(min: nat, max: Option<nat>) -> Seq<char> {
    match max {
        None => if min == 0 {
            "*"@
        } else {
            "{"@ + decimal(min) + ",}"@
        },
        Some(m) => "{"@ + decimal(min) + ","@ + decimal(m) + "}"@,
    }
}

/// `parts` joined with `sep` between neighbours.
pub open spec fn join(parts: Seq<Seq<char>>, sep: Seq<char>) -> Seq<char>
    decreases parts.len(),
{
    if parts.len() == 0 {
        Seq::empty()
    } else if parts.len() == 1 {
        parts[0]
    } else {
        join(parts.drop_last(), sep) + sep + parts.last()
    }
}

/// The GBNF terminal for one scalar `enum`/`const` value.
pub open spec fn scalar_literal(v: Json) -> Result<Seq<char>, SpecError> {
    match v {
        Json::Str(s) => Ok(gbnf_literal(seq!['"'] + escaped(s@) + seq!['"'])),
        Json::Number(n) => Ok(gbnf_literal(n.text@)),
        Json::Bool(b) => Ok(gbnf_literal(if b { "true"@ } else { "false"@ })),
        Json::Null => Ok(gbnf_literal("null"@)),
        _ => Err((GrammarErrorKind::Unsupported, "non-scalar enum/const values"@)),
    }
}

pub open spec fn scalar_literals(vs: Seq<Json>) -> Result<Seq<Seq<char>>, SpecError>
    decreases vs.len(),
{
    if vs.len() == 0 {
        Ok(Seq::empty())
    } else {
        match scalar_literals(vs.drop_last()) {
            Err(e) => Err(e),
            Ok(alts) => match scalar_literal(vs.last()) {
                Err(e) => Err(e),
                Ok(l) => Ok(alts.push(l)),
            },
        }
    }
}

/// `enum`/`const`: an alternation of the literal values.
pub open spec fn spec_literals(r: Rules, vs: Seq<Json>) -> Step {
    let r1 = spec_primitive(r, Prim::Space);
    match scalar_literals(vs) {
        Err(e) => (r1, Err(e)),
        Ok(alts) => (r1, Ok("("@ + join(alts, " | "@) + ") space"@)),
    }
}

pub open spec fn err_step(r: Rules, k: GrammarErrorKind, m: Seq<char>) -> Step {
    (r, Err((k, m)))
}

/// The value under `k` when it is a non-negative integer.
pub open spec fn bound_of(f: Seq<(String, Json)>, k: Seq<char>) -> Option<nat> {
    match u64_of(spec_get(f, k)) {
        Some(n) => Some(n as nat),
        None => None,
    }
}

pub open spec fn minus_one(m: Option<nat>) -> Option<nat> {
    match m {
        Some(x) => Some(if x == 0 { 0nat } else { (x - 1) as nat }),
        None => None,
    }
}

/// Body of a bounded string rule.
pub open spec fn bounded_string_body(min: Option<nat>, max: Option<nat>) -> Seq<char> {
    r#""\"" "#@ + "string-char"@ + repetition(
        match min {
            Some(m) => m,
            None => 0nat,
        },
        max,
    ) + r#" "\"" space"#@
}

/// Body of an array rule over `item`, given the bounds.
pub open spec fn array_body(item: Seq<char>, min: nat, max: Option<nat>) -> Seq<char> {
    let inner = if min == 0 {
        if max == Some(0nat) {
            Seq::empty()
        } else {
            "( "@ + item + r#" ( "," space "#@ + item + " )"@ + repetition(0, minus_one(max))
                + " )? "@
        }
    } else {
        item + r#" ( "," space "#@ + item + " )"@ + repetition((min - 1) as nat, minus_one(max))
            + " "@
    };
    r#""[" space "#@ + inner + r#""]" space"#@
}

/// The grammar line for one object property.
pub open spec fn property_part(key: Seq<char>, rule: Seq<char>) -> Seq<char> {
    gbnf_literal(seq!['"'] + key + seq!['"']) + r#" space ":" space "#@ + rule
}

/// Compile `schema`, binding it to the rule `name` unless its body is
/// already the name of a rule (a shared primitive).
pub open spec fn spec_named(r: Rules, schema: Json, name: Seq<char>) -> Step
    decreases schema, 1int,
{
    let (r1, res) = spec_visit(r, schema, name);
    match res {
        Err(e) => (r1, Err(e)),
        Ok(body) => if has_rule(r1, body) {
            (r1, Ok(body))
        } else {
            (define(r1, name, body), Ok(name))
        },
    }
}

/// Compile the properties of an object, in order; the result is the list
/// of grammar parts between the braces.
pub open spec fn spec_props(r: Rules, props: Seq<(String, Json)>, name: Seq<char>) -> (
    Rules,
    Result<Seq<Seq<char>>, SpecError>,
)
    decreases props, 0int,
{
    if props.len() == 0 {
        (r, Ok(Seq::empty()))
    } else {
        let (r1, res) = spec_props(r, props.drop_last(), name);
        match res {
            Err(e) => (r1, Err(e)),
            Ok(parts) => {
                let key = props.last().0@;
                let (r2, res2) = spec_named(r1, props.last().1, name + "-"@ + sanitized(key));
                match res2 {
                    Err(e) => (r2, Err(e)),
                    Ok(rule) => {
                        let parts1 = if props.len() > 1 {
                            parts.push(r#""," space"#@)
                        } else {
                            parts
                        };
                        (r2, Ok(parts1.push(property_part(key, rule))))
                    },
                }
            },
        }
    }
}

/// Compile `schema` (whose rule will be called `name`); the result is the
/// rule body. The caller decides whether to inline it or bind it.
pub open spec fn spec_visit(r: Rules, schema: Json, name: Seq<char>) -> Step
    decreases schema, 0int,
{
    match schema {
        Json::Object(fv) => {
            let f = fv@;
            let ie = find_key(f, "enum"@);
            let ic = find_key(f, "const"@);
            if 0 <= ie < f.len() {
                match f[ie].1 {
                    Json::Array(vs) => spec_literals(r, vs@),
                    _ => err_step(r, GrammarErrorKind::Invalid, "enum must be an array"@),
                }
            } else if 0 <= ic < f.len() {
                spec_literals(r, seq![f[ic].1])
            } else {
                match str_of(spec_get(f, "type"@)) {
                    None => err_step(r, GrammarErrorKind::Unsupported, "schema without a `type`"@),
                    Some(ty) => if ty == "string"@ {
                        let min = bound_of(f, "minLength"@);
                        let max = bound_of(f, "maxLength"@);
                        if min is None && max is None {
                            (spec_primitive(r, Prim::Str), Ok(prim_name(Prim::Str)))
                        } else {
                            let r1 = spec_primitive(r, Prim::Space);
                            let r2 = define(r1, "string-char"@, char_rule_body());
                            (r2, Ok(bounded_string_body(min, max)))
                        }
                    } else if ty == "number"@ {
                        (spec_primitive(r, Prim::Number), Ok(prim_name(Prim::Number)))
                    } else if ty == "integer"@ {
                        (spec_primitive(r, Prim::Integer), Ok(prim_name(Prim::Integer)))
                    } else if ty == "boolean"@ {
                        (spec_primitive(r, Prim::Boolean), Ok(prim_name(Prim::Boolean)))
                    } else if ty == "null"@ {
                        (spec_primitive(r, Prim::Null), Ok(prim_name(Prim::Null)))
                    } else if ty == "array"@ {
                        let ii = find_key(f, "items"@);
                        if 0 <= ii < f.len() {
                            let (r1, res) = spec_named(r, f[ii].1, name + "-item"@);
                            match res {
                                Err(e) => (r1, Err(e)),
                                Ok(item) => {
                                    let r2 = spec_primitive(r1, Prim::Space);
                                    let min = match bound_of(f, "minItems"@) {
                                        Some(m) => m,
                                        None => 0nat,
                                    };
                                    let max = bound_of(f, "maxItems"@);
                                    if max matches Some(m) && m < min {
                                        err_step(r2, GrammarErrorKind::Invalid, "maxItems < minItems"@)
                                    } else {
                                        (r2, Ok(array_body(item, min, max)))
                                    }
                                },
                            }
                        } else {
                            err_step(r, GrammarErrorKind::Unsupported, "array without `items`"@)
                        }
                    } else if ty == "object"@ {
                        let ip = find_key(f, "properties"@);
                        if 0 <= ip < f.len() && f[ip].1 is Object {
                            let props = f[ip].1->Object_0@;
                            if props.len() == 0 {
                                err_step(r, GrammarErrorKind::Unsupported, "object with no properties"@)
                            } else {
                                let r1 = spec_primitive(r, Prim::Space);
                                let (r2, res) = spec_props(r1, props, name);
                                match res {
                                    Err(e) => (r2, Err(e)),
                                    Ok(parts) => (
                                        r2,
                                        Ok(
                                            join(
                                                seq![r#""{" space"#@] + parts + seq![r#""}" space"#@],
                                                " "@,
                                            ),
                                        ),
                                    ),
                                }
                            }
                        } else {
                            err_step(r, GrammarErrorKind::Unsupported, "object without `properties`"@)
                        }
                    } else {
                        err_step(r, GrammarErrorKind::Unsupported, "type `"@ + ty + "`"@)
                    },
                }
            }
        },
        _ => err_step(r, GrammarErrorKind::Invalid, "schema must be a JSON object"@),
    }
}

/// The rule table a schema compiles to: the body of `schema` bound to
/// `root`, after every rule the body refers to.
pub open spec fn spec_compile(schema: Json) -> Result<Rules, SpecError> {
    let (r, res) = spec_visit(Seq::empty(), schema, "root"@);
    match res {
        Err(e) => Err(e),
        Ok(body) => Ok(define(r, "root"@, body)),
    }
}

/// The lines of the rules whose name is (or, for `!root`, is not) `root`.
pub open spec fn render_pass(r: Rules, root: bool) -> Seq<char>
    decreases r.len(),
{
    if r.len() == 0 {
        Seq::empty()
    } else {
        render_pass(r.drop_last(), root) + if (r.last().0 == "root"@) == root {
            r.last().0 + " ::= "@ + r.last().1 + "\n"@
        } else {
            Seq::empty()
        }
    }
}

/// Grammar text: the `root` rule first, then the rest in definition order.
pub open spec fn render(r: Rules) -> Seq<char> {
    render_pass(r, true) + render_pass(r, false)
}

/// What `json_schema_to_gbnf` produces for `schema`.
pub open spec fn spec_json_schema_to_gbnf(schema: Json) -> Result<Seq<char>, SpecError> {
    match spec_compile(schema) {
        Err(e) => Err(e),
        Ok(r) => Ok(render(r)),
    }
}


// ---------------------------------------------------------------------
// Executable compiler
// ---------------------------------------------------------------------

fn push_escaped(out: &mut String, s: &str)
    ensures
        final(out)@ == old(out)@ + escaped(s@),
{
    let n = s.unicode_len();
    let mut i: usize = 0;
    while i < n
        invariant
            n == s@.len(),
            i <= n,
            out@ == old(out)@ + escaped(s@.take(i as int)),
        decreases n - i,
    {
        let c = s.get_char(i);
        assert(s@.take(i as int + 1).drop_last() == s@.take(i as int));
        if c == '"' {
            push_char(out, '\\');
            push_char(out, '"');
            assert(escape_char(c) =~= seq!['\\', '"']);
        } else if c == '\\' {
            push_char(out, '\\');
            push_char(out, '\\');
            assert(escape_char(c) =~= seq!['\\', '\\']);
        } else {
            push_char(out, c);
            assert(escape_char(c) =~= seq![c]);
        }
        assert(out@ =~= old(out)@ + escaped(s@.take(i as int + 1)));
        i = i + 1;
    }
    assert(s@.take(n as int) == s@);
}

/// Escape a string for embedding inside a JSON string literal.
pub fn escape_json(s: &str) -> (r: String)
    ensures
        r@ == escaped(s@),
{
    let mut out = String::new();
    push_escaped(&mut out, s);
    out
}

/// Quote a chunk of literal output text as a GBNF terminal.
pub fn gbnf_string_literal(s: &str) -> (r: String)
    ensures
        r@ == gbnf_literal(s@),
{
    let mut out = String::new();
    push_char(&mut out, '"');
    push_escaped(&mut out, s);
    push_char(&mut out, '"');
    assert(out@ =~= gbnf_literal(s@));
    out
}

/// Rule-name fragment for a property key.
pub fn sanitize(key: &str) -> (r: String)
    ensures
        r@ == sanitized(key@),
{
    let n = key.unicode_len();
    let mut out = String::new();
    let mut i: usize = 0;
    while i < n
        invariant
            n == key@.len(),
            i <= n,
            out@ =~= sanitized(key@).take(i as int),
        decreases n - i,
    {
        let c = key.get_char(i);
        if ascii_alnum(c) {
            push_char(&mut out, c);
        } else {
            push_char(&mut out, '-');
        }
        i = i + 1;
    }
    out
}

/// GBNF repetition suffix for `{min,max}`.
pub fn repetition_suffix(min: u64, max: Option<u64>) -> (r: String)
    ensures
        r@ == repetition(min as nat, opt_nat(max)),
{
    match max {
        None => if min == 0 {
            owned("*")
        } else {
            let mut s = owned("{");
            s.append(u64_to_decimal(min).as_str());
            s.append(",}");
            s
        },
        Some(m) => {
            let mut s = owned("{");
            s.append(u64_to_decimal(min).as_str());
            s.append(",");
            s.append(u64_to_decimal(m).as_str());
            s.append("}");
            assert(s@ =~= "{"@ + decimal(min as nat) + ","@ + decimal(m as nat) + "}"@);
            s
        },
    }
}

pub open spec fn opt_nat(m: Option<u64>) -> Option<nat> {
    match m {
        Some(x) => Some(x as nat),
        None => None,
    }
}

/// Join `parts` with `sep` between neighbours.
pub fn join_with(parts: &Vec<String>, sep: &str) -> (r: String)
    ensures
        r@ == join(strings_view(parts@), sep@),
{
    let mut out = String::new();
    let mut i: usize = 0;
    while i < parts.len()
        invariant
            i <= parts.len(),
            out@ == join(strings_view(parts@).take(i as int), sep@),
        decreases parts.len() - i,
    {
        let ghost before = strings_view(parts@).take(i as int);
        assert(strings_view(parts@).take(i as int + 1).drop_last() =~= before);
        if i > 0 {
            out.append(sep);
        }
        out.append(parts[i].as_str());
        assert(strings_view(parts@).take(i as int + 1).last() == parts@[i as int]@);
        i = i + 1;
    }
    assert(strings_view(parts@).take(parts.len() as int) =~= strings_view(parts@));
    out
}


pub open spec fn result_view(r: Result<String, GrammarError>) -> Result<Seq<char>, SpecError> {
    match r {
        Ok(s) => Ok(s@),
        Err(e) => Err(e@),
    }
}

fn unsupported(m: &str) -> (e: GrammarError)
    ensures
        e@ == (GrammarErrorKind::Unsupported, m@),
{
    GrammarError::Unsupported(owned(m))
}

fn invalid(m: &str) -> (e: GrammarError)
    ensures
        e@ == (GrammarErrorKind::Invalid, m@),
{
    GrammarError::Invalid(owned(m))
}

/// The GBNF terminal for one scalar `enum`/`const` value.
fn scalar_literal_of(v: &Json) -> (r: Result<String, GrammarError>)
    ensures
        result_view(r) == scalar_literal(*v),
{
    match v {
        Json::Str(s) => {
            let mut q = owned("\"");
            q.append(escape_json(s.as_str()).as_str());
            q.append("\"");
            proof {
                reveal_strlit("\"");
                assert(q@ =~= seq!['"'] + escaped(s@) + seq!['"']);
            }
            Ok(gbnf_string_literal(q.as_str()))
        },
        Json::Number(n) => Ok(gbnf_string_literal(n.text.as_str())),
        Json::Bool(b) => if *b {
            Ok(gbnf_string_literal("true"))
        } else {
            Ok(gbnf_string_literal("false"))
        },
        Json::Null => Ok(gbnf_string_literal("null")),
        _ => Err(unsupported("non-scalar enum/const values")),
    }
}

/// The rule table, as the specification speaks of it.
pub open spec fn rules_of(v: Seq<(String, String)>) -> Rules {
    Seq::new(v.len(), |i: int| (v[i].0@, v[i].1@))
}

struct Generator {
    rules: Vec<(String, String)>,
}

impl Generator {
    spec fn table(&self) -> Rules {
        rules_of(self.rules@)
    }

    fn has_rule(&self, name: &str) -> (b: bool)
        ensures
            b == has_rule(self.table(), name@),
    {
        let mut i: usize = 0;
        while i < self.rules.len()
            invariant
                i <= self.rules.len(),
                forall|j: int| 0 <= j < i ==> self.table()[j].0 != name@,
            decreases self.rules.len() - i,
        {
            if str_eq(self.rules[i].0.as_str(), name) {
                assert(self.table()[i as int].0 == name@);
                return true;
            }
            i = i + 1;
        }
        false
    }

    fn define(&mut self, name: &str, body: &str) -> (n: String)
        ensures
            final(self).table() == define(old(self).table(), name@, body@),
            n@ == name@,
    {
        if !self.has_rule(name) {
            self.rules.push((owned(name), owned(body)));
            assert(self.table() =~= old(self).table().push((name@, body@)));
        }
        owned(name)
    }

    fn primitive(&mut self, p: Prim) -> (n: String)
        ensures
            final(self).table() == spec_primitive(old(self).table(), p),
            n@ == prim_name(p),
    {
        let (name, body): (&str, &str) = match p {
            Prim::Space => ("space", r#"" "?"#),
            Prim::Str => ("string", r#""\"" ( [^"\\] | "\\" (["\\bfnrt] | "u" [0-9a-fA-F] [0-9a-fA-F] [0-9a-fA-F] [0-9a-fA-F]) )* "\"" space"#),
            Prim::Number => ("number", r#""-"? ([0-9] | [1-9] [0-9]*) ("." [0-9]+)? ([eE] [-+]? [0-9]+)? space"#),
            Prim::Integer => ("integer", r#""-"? ([0-9] | [1-9] [0-9]*) space"#),
            Prim::Boolean => ("boolean", r#"("true" | "false") space"#),
            Prim::Null => ("null", r#""null" space"#),
        };
        if p != Prim::Space {
            self.define("space", r#"" "?"#);
        }
        self.define(name, body)
    }

    /// `enum`/`const`: an alternation of the literal values.
    fn literal_alternatives(&mut self, values: &Vec<Json>) -> (res: Result<String, GrammarError>)
        ensures
            final(self).table() == spec_literals(old(self).table(), values@).0,
            result_view(res) == spec_literals(old(self).table(), values@).1,
    {
        self.primitive(Prim::Space);
        let mut alts: Vec<String> = Vec::new();
        let mut i: usize = 0;
        assert(values@.take(0) =~= Seq::<Json>::empty());
        assert(strings_view(alts@) =~= Seq::<Seq<char>>::empty());
        while i < values.len()
            invariant
                i <= values.len(),
                self.table() == spec_primitive(old(self).table(), Prim::Space),
                scalar_literals(values@.take(i as int)) == Ok::<Seq<Seq<char>>, SpecError>(
                    strings_view(alts@),
                ),
            decreases values.len() - i,
        {
            assert(values@.take(i as int + 1).drop_last() =~= values@.take(i as int));
            let ghost prev = alts@;
            match scalar_literal_of(&values[i]) {
                Ok(l) => {
                    alts.push(l);
                    assert(strings_view(alts@) =~= strings_view(prev).push(alts@.last()@));
                },
                Err(e) => {
                    proof {
                        lemma_literals_err_prefix(values@, i as int + 1, e@);
                    }
                    return Err(e);
                },
            }
            i = i + 1;
        }
        assert(values@.take(values.len() as int) =~= values@);
        let mut out = owned("(");
        out.append(join_with(&alts, " | ").as_str());
        out.append(") space");
        Ok(out)
    }
}

/// A refusal among the first `k` values is the refusal of all of them.
proof fn lemma_literals_err_prefix(vs: Seq<Json>, k: int, e: SpecError)
    requires
        0 < k <= vs.len(),
        scalar_literals(vs.take(k)) == Err::<Seq<Seq<char>>, SpecError>(e),
    ensures
        scalar_literals(vs) == Err::<Seq<Seq<char>>, SpecError>(e),
    decreases vs.len() - k,
{
    if k < vs.len() {
        assert(vs.take(k + 1).drop_last() =~= vs.take(k));
        lemma_literals_err_prefix(vs, k + 1, e);
    } else {
        assert(vs.take(k) =~= vs);
    }
}


/// A refusal while compiling the first `k` properties is the refusal of
/// the whole object.
proof fn lemma_props_err_prefix(
    r: Rules,
    props: Seq<(String, Json)>,
    name: Seq<char>,
    k: int,
    e: SpecError,
)
    requires
        0 < k <= props.len(),
        spec_props(r, props.take(k), name).1 == Err::<Seq<Seq<char>>, SpecError>(e),
    ensures
        spec_props(r, props, name).1 == Err::<Seq<Seq<char>>, SpecError>(e),
    decreases props.len() - k,
{
    if k < props.len() {
        assert(props.take(k + 1).drop_last() =~= props.take(k));
        lemma_props_err_prefix(r, props, name, k + 1, e);
    } else {
        assert(props.take(k) =~= props);
    }
}

fn property_part_of(key: &str, rule: &str) -> (r: String)
    ensures
        r@ == property_part(key@, rule@),
{
    let mut q = owned("\"");
    q.append(key);
    q.append("\"");
    proof {
        reveal_strlit("\"");
        assert(q@ =~= seq!['"'] + key@ + seq!['"']);
    }
    let mut out = gbnf_string_literal(q.as_str());
    out.append(r#" space ":" space "#);
    out.append(rule);
    out
}

impl Generator {
    /// `const`: the one literal value.
    fn single_literal(&mut self, v: &Json) -> (res: Result<String, GrammarError>)
        ensures
            res is Ok ==> final(self).table() == spec_literals(old(self).table(), seq![*v]).0,
            result_view(res) == spec_literals(old(self).table(), seq![*v]).1,
    {
        self.primitive(Prim::Space);
        assert(seq![*v].drop_last() =~= Seq::<Json>::empty());
        assert(seq![*v].last() == *v);
        assert(scalar_literals(Seq::<Json>::empty()) == Ok::<Seq<Seq<char>>, SpecError>(
            Seq::empty(),
        ));
        let l = scalar_literal_of(v)?;
        assert(scalar_literals(seq![*v]) == Ok::<Seq<Seq<char>>, SpecError>(seq![l@])) by {
            assert(Seq::<Seq<char>>::empty().push(l@) =~= seq![l@]);
        }
        assert(join(seq![l@], " | "@) == l@);
        let mut out = owned("(");
        out.append(l.as_str());
        out.append(") space");
        Ok(out)
    }

    /// Compile `schema` and bind the result to the rule `name`, unless
    /// the body already names a rule (a shared primitive).
    fn named(&mut self, schema: &Json, name: &str) -> (res: Result<String, GrammarError>)
        ensures
            res is Ok ==> final(self).table() == spec_named(old(self).table(), *schema, name@).0,
            result_view(res) == spec_named(old(self).table(), *schema, name@).1,
        decreases *schema, 1int,
    {
        let body = self.visit(schema, name)?;
        if self.has_rule(body.as_str()) {
            Ok(body)
        } else {
            Ok(self.define(name, body.as_str()))
        }
    }

    /// Compile the properties of an object, in order.
    fn properties(&mut self, props: &Vec<(String, Json)>, name: &str) -> (res: Result<
        Vec<String>,
        GrammarError,
    >)
        ensures
            res matches Ok(parts) ==> final(self).table() == spec_props(
                old(self).table(),
                props@,
                name@,
            ).0 && spec_props(old(self).table(), props@, name@).1 == Ok::<
                Seq<Seq<char>>,
                SpecError,
            >(strings_view(parts@)),
            res matches Err(e) ==> spec_props(old(self).table(), props@, name@).1 == Err::<
                Seq<Seq<char>>,
                SpecError,
            >(e@),
        decreases *props, 0int,
    {
        let mut parts: Vec<String> = Vec::new();
        let mut i: usize = 0;
        assert(props@.take(0) =~= Seq::<(String, Json)>::empty());
        assert(strings_view(parts@) =~= Seq::<Seq<char>>::empty());
        while i < props.len()
            invariant
                i <= props.len(),
                spec_props(old(self).table(), props@.take(i as int), name@) == (
                    self.table(),
                    Ok::<Seq<Seq<char>>, SpecError>(strings_view(parts@)),
                ),
            decreases props.len() - i,
        {
            assert(props@.take(i as int + 1).drop_last() =~= props@.take(i as int));
            assert(props@.take(i as int + 1).last() == props@[i as int]);
            let key = props[i].0.as_str();
            let mut pname = owned(name);
            pname.append("-");
            pname.append(sanitize(key).as_str());
            let ghost before = strings_view(parts@);
            match self.named(&props[i].1, pname.as_str()) {
                Ok(rule) => {
                    if i > 0 {
                        parts.push(owned(r#""," space"#));
                    }
                    parts.push(property_part_of(key, rule.as_str()));
                    proof {
                        if i > 0 {
                            assert(strings_view(parts@) =~= before.push(r#""," space"#@).push(
                                property_part(key@, rule@),
                            ));
                        } else {
                            assert(strings_view(parts@) =~= before.push(property_part(key@, rule@)));
                        }
                    }
                },
                Err(e) => {
                    proof {
                        lemma_props_err_prefix(old(self).table(), props@, name@, i as int + 1, e@);
                    }
                    return Err(e);
                },
            }
            i = i + 1;
        }
        assert(props@.take(props.len() as int) =~= props@);
        Ok(parts)
    }

    /// Compile `schema` (whose rule will be called `name`) and return the
    /// rule body.
    #[verifier::rlimit(80)]
    fn visit(&mut self, schema: &Json, name: &str) -> (res: Result<String, GrammarError>)
        ensures
            res is Ok ==> final(self).table() == spec_visit(old(self).table(), *schema, name@).0,
            result_view(res) == spec_visit(old(self).table(), *schema, name@).1,
        decreases *schema, 0int,
    {
        let fields = match schema {
            Json::Object(f) => f,
            _ => return Err(invalid("schema must be a JSON object")),
        };
        let ie = find_index(fields, "enum");
        let ic = find_index(fields, "const");
        if ie < fields.len() {
            return match &fields[ie].1 {
                Json::Array(vs) => self.literal_alternatives(vs),
                _ => Err(invalid("enum must be an array")),
            };
        }
        if ic < fields.len() {
            return self.single_literal(&fields[ic].1);
        }
        let ty = match as_str(obj_get(fields, "type")) {
            Some(t) => t,
            None => return Err(unsupported("schema without a `type`")),
        };
        if str_eq(ty, "string") {
            let min = as_u64(obj_get(fields, "minLength"));
            let max = as_u64(obj_get(fields, "maxLength"));
            if min.is_none() && max.is_none() {
                return Ok(self.primitive(Prim::Str));
            }
            self.primitive(Prim::Space);
            let char_rule = self.define(
                "string-char",
                r#"( [^"\\] | "\\" (["\\bfnrt] | "u" [0-9a-fA-F] [0-9a-fA-F] [0-9a-fA-F] [0-9a-fA-F]) )"#,
            );
            let lo = match min {
                Some(m) => m,
                None => 0,
            };
            let mut out = owned(r#""\"" "#);
            out.append(char_rule.as_str());
            out.append(repetition_suffix(lo, max).as_str());
            out.append(r#" "\"" space"#);
            assert(out@ == bounded_string_body(
                bound_of(fields@, "minLength"@),
                bound_of(fields@, "maxLength"@),
            ));
            Ok(out)
        } else if str_eq(ty, "number") {
            Ok(self.primitive(Prim::Number))
        } else if str_eq(ty, "integer") {
            Ok(self.primitive(Prim::Integer))
        } else if str_eq(ty, "boolean") {
            Ok(self.primitive(Prim::Boolean))
        } else if str_eq(ty, "null") {
            Ok(self.primitive(Prim::Null))
        } else if str_eq(ty, "array") {
            let ii = find_index(fields, "items");
            if ii >= fields.len() {
                return Err(unsupported("array without `items`"));
            }
            let mut iname = owned(name);
            iname.append("-item");
            let item = self.named(&fields[ii].1, iname.as_str())?;
            self.primitive(Prim::Space);
            let min: u64 = match as_u64(obj_get(fields, "minItems")) {
                Some(m) => m,
                None => 0,
            };
            let max = as_u64(obj_get(fields, "maxItems"));
            if let Some(m) = max {
                if m < min {
                    return Err(invalid("maxItems < minItems"));
                }
            }
            let inner_max: Option<u64> = match max {
                Some(m) => Some(if m == 0 { 0 } else { m - 1 }),
                None => None,
            };
            let mut out = owned(r#""[" space "#);
            if min == 0 {
                let zero = match max {
                    Some(m) => m == 0,
                    None => false,
                };
                if !zero {
                    out.append("( ");
                    out.append(item.as_str());
                    out.append(r#" ( "," space "#);
                    out.append(item.as_str());
                    out.append(" )");
                    out.append(repetition_suffix(0, inner_max).as_str());
                    out.append(" )? ");
                }
            } else {
                out.append(item.as_str());
                out.append(r#" ( "," space "#);
                out.append(item.as_str());
                out.append(" )");
                out.append(repetition_suffix(min - 1, inner_max).as_str());
                out.append(" ");
            }
            out.append(r#""]" space"#);
            assert(out@ == array_body(item@, min as nat, bound_of(fields@, "maxItems"@)));
            Ok(out)
        } else if str_eq(ty, "object") {
            let ip = find_index(fields, "properties");
            if ip >= fields.len() {
                return Err(unsupported("object without `properties`"));
            }
            let props = match &fields[ip].1 {
                Json::Object(p) => p,
                _ => return Err(unsupported("object without `properties`")),
            };
            if props.len() == 0 {
                return Err(unsupported("object with no properties"));
            }
            self.primitive(Prim::Space);
            let inner = self.properties(props, name)?;
            let mut parts: Vec<String> = Vec::new();
            parts.push(owned(r#""{" space"#));
            let mut i: usize = 0;
            while i < inner.len()
                invariant
                    i <= inner.len(),
                    strings_view(parts@) =~= seq![r#""{" space"#@] + strings_view(inner@).take(i as int),
                decreases inner.len() - i,
            {
                let ghost prev = strings_view(parts@);
                parts.push(inner[i].clone());
                assert(strings_view(parts@) =~= prev.push(inner@[i as int]@));
                assert(strings_view(inner@).take(i as int + 1) =~= strings_view(inner@).take(i as int).push(
                    inner@[i as int]@,
                ));
                i = i + 1;
            }
            let ghost prev = strings_view(parts@);
            parts.push(owned(r#""}" space"#));
            assert(strings_view(parts@) =~= prev.push(r#""}" space"#@));
            assert(strings_view(inner@).take(inner.len() as int) =~= strings_view(inner@));
            assert(strings_view(parts@) =~= seq![r#""{" space"#@] + strings_view(inner@) + seq![
                r#""}" space"#@,
            ]);
            let joined = join_with(&parts, " ");
            assert(joined@ == join(
                seq![r#""{" space"#@] + strings_view(inner@) + seq![r#""}" space"#@],
                " "@,
            ));
            Ok(joined)
        } else {
            let mut m = owned("type `");
            m.append(ty);
            m.append("`");
            Err(GrammarError::Unsupported(m))
        }
    }
}

/// Convert a JSON Schema into a GBNF grammar whose start rule is `root`.
pub fn json_schema_to_gbnf(schema: &Json) -> (res: Result<String, GrammarError>)
    ensures
        result_view(res) == spec_json_schema_to_gbnf(*schema),
{
    let mut g = Generator { rules: Vec::new() };
    assert(g.table() =~= Seq::<(Seq<char>, Seq<char>)>::empty());
    let root_body = g.visit(schema, "root")?;
    g.define("root", root_body.as_str());
    let ghost table = g.table();
    let mut out = String::new();
    let mut i: usize = 0;
    while i < g.rules.len()
        invariant
            i <= g.rules.len(),
            g.table() == table,
            out@ == render_pass(table.take(i as int), true),
        decreases g.rules.len() - i,
    {
        assert(table.take(i as int + 1).drop_last() =~= table.take(i as int));
        if str_eq(g.rules[i].0.as_str(), "root") {
            out.append(g.rules[i].0.as_str());
            out.append(" ::= ");
            out.append(g.rules[i].1.as_str());
            out.append("\n");
        }
        i = i + 1;
    }
    assert(table.take(g.rules.len() as int) =~= table);
    let ghost first = out@;
    i = 0;
    while i < g.rules.len()
        invariant
            i <= g.rules.len(),
            g.table() == table,
            out@ == first + render_pass(table.take(i as int), false),
        decreases g.rules.len() - i,
    {
        assert(table.take(i as int + 1).drop_last() =~= table.take(i as int));
        if !str_eq(g.rules[i].0.as_str(), "root") {
            out.append(g.rules[i].0.as_str());
            out.append(" ::= ");
            out.append(g.rules[i].1.as_str());
            out.append("\n");
        }
        i = i + 1;
    }
    assert(table.take(g.rules.len() as int) =~= table);
    Ok(out)
}


// ---------------------------------------------------------------------
// Laws
// ---------------------------------------------------------------------

/// No rule in the table is called `root`.
pub open spec fn no_root(r: Rules) -> bool {
    forall|i: int| 0 <= i < r.len() ==> r[i].0 != "root"@
}

pub open spec fn table_ok(r: Rules) -> bool {
    names_distinct(r) && no_root(r)
}

proof fn lemma_define_ok(r: Rules, n: Seq<char>, b: Seq<char>)
    requires
        table_ok(r),
        n != "root"@,
    ensures
        table_ok(define(r, n, b)),
{
}

proof fn lemma_root_len()
    ensures
        "root"@.len() == 4,
{
    reveal_strlit("root");
}

proof fn lemma_primitive_ok(r: Rules, p: Prim)
    requires
        table_ok(r),
    ensures
        table_ok(spec_primitive(r, p)),
{
    reveal_strlit("root");
    reveal_strlit("space");
    reveal_strlit("string");
    reveal_strlit("number");
    reveal_strlit("integer");
    reveal_strlit("boolean");
    reveal_strlit("null");
    assert("null"@[0] != "root"@[0]);
    lemma_define_ok(r, prim_name(Prim::Space), prim_body(Prim::Space));
    let r1 = if p != Prim::Space {
        define(r, prim_name(Prim::Space), prim_body(Prim::Space))
    } else {
        r
    };
    lemma_define_ok(r1, prim_name(p), prim_body(p));
}

proof fn lemma_named_ok(r: Rules, schema: Json, name: Seq<char>)
    requires
        table_ok(r),
        name.len() >= 5,
    ensures
        table_ok(spec_named(r, schema, name).0),
    decreases schema, 1int,
{
    lemma_root_len();
    lemma_visit_ok(r, schema, name);
    let (r1, res) = spec_visit(r, schema, name);
    if let Ok(body) = res {
        if !has_rule(r1, body) {
            lemma_define_ok(r1, name, body);
        }
    }
}

proof fn lemma_props_ok(r: Rules, props: Seq<(String, Json)>, name: Seq<char>)
    requires
        table_ok(r),
        name.len() >= 4,
    ensures
        table_ok(spec_props(r, props, name).0),
    decreases props, 0int,
{
    if props.len() > 0 {
        lemma_props_ok(r, props.drop_last(), name);
        let (r1, res) = spec_props(r, props.drop_last(), name);
        if res is Ok {
            reveal_strlit("-");
            lemma_named_ok(r1, props.last().1, name + "-"@ + sanitized(props.last().0@));
        }
    }
}

proof fn lemma_visit_ok(r: Rules, schema: Json, name: Seq<char>)
    requires
        table_ok(r),
        name.len() >= 4,
    ensures
        table_ok(spec_visit(r, schema, name).0),
    decreases schema, 0int,
{
    reveal_strlit("string-char");
    reveal_strlit("root");
    reveal_strlit("-item");
    lemma_primitive_ok(r, Prim::Space);
    lemma_primitive_ok(r, Prim::Str);
    lemma_primitive_ok(r, Prim::Number);
    lemma_primitive_ok(r, Prim::Integer);
    lemma_primitive_ok(r, Prim::Boolean);
    lemma_primitive_ok(r, Prim::Null);
    assert("string-char"@.len() != "root"@.len());
    lemma_define_ok(spec_primitive(r, Prim::Space), "string-char"@, char_rule_body());
    if let Json::Object(fv) = schema {
        let f = fv@;
        let ii = find_key(f, "items"@);
        if 0 <= ii < f.len() {
            lemma_named_ok(r, f[ii].1, name + "-item"@);
            lemma_primitive_ok(spec_named(r, f[ii].1, name + "-item"@).0, Prim::Space);
        }
        let ip = find_key(f, "properties"@);
        if 0 <= ip < f.len() && f[ip].1 is Object {
            lemma_props_ok(spec_primitive(r, Prim::Space), f[ip].1->Object_0@, name);
        }
    }
}

proof fn lemma_render_no_root(r: Rules)
    requires
        no_root(r),
    ensures
        render_pass(r, true) == Seq::<char>::empty(),
    decreases r.len(),
{
    if r.len() > 0 {
        lemma_render_no_root(r.drop_last());
    }
}

/// The body the schema compiles to, before it is bound to `root`.
pub open spec fn root_body(schema: Json) -> Seq<char> {
    spec_visit(Seq::empty(), schema, "root"@).1->Ok_0
}

/// Shape of every grammar the compiler produces: each rule name is defined
/// exactly once (shared primitives such as `string` or `space` are not
/// repeated), the table ends with the `root` rule, and the grammar text
/// starts with the `root` line, followed by every other rule in definition
/// order.
pub proof fn lemma_grammar_shape(schema: Json)
    ensures
        spec_compile(schema) matches Ok(r) ==> {
            &&& names_distinct(r)
            &&& r.len() > 0
            &&& r.last() == ("root"@, root_body(schema))
            &&& forall|i: int| 0 <= i < r.len() - 1 ==> r[i].0 != "root"@
            &&& spec_json_schema_to_gbnf(schema) == Ok::<Seq<char>, SpecError>(
                "root"@ + " ::= "@ + root_body(schema) + "\n"@ + render_pass(r.drop_last(), false),
            )
        },
{
    reveal_strlit("root");
    let e: Rules = Seq::empty();
    assert(table_ok(e));
    lemma_visit_ok(e, schema, "root"@);
    let (r, res) = spec_visit(e, schema, "root"@);
    if let Ok(body) = res {
        assert(!has_rule(r, "root"@));
        let full = define(r, "root"@, body);
        assert(full == r.push(("root"@, body)));
        assert(full.drop_last() =~= r);
        lemma_render_no_root(r);
        assert(render_pass(full, true) =~= "root"@ + " ::= "@ + body + "\n"@);
    }
}

/// A schema that is not a JSON object is refused as invalid.
pub proof fn lemma_non_object_is_invalid(schema: Json)
    requires
        !(schema is Object),
    ensures
        spec_json_schema_to_gbnf(schema) == Err::<Seq<char>, SpecError>(
            (GrammarErrorKind::Invalid, "schema must be a JSON object"@),
        ),
{
}

/// An object schema with no `enum`, no `const` and no `type` is refused as
/// unsupported.
pub proof fn lemma_untyped_is_unsupported(schema: Json)
    requires
        member(schema, "enum"@) is None,
        member(schema, "const"@) is None,
        member(schema, "type"@) is None,
        schema is Object,
    ensures
        spec_json_schema_to_gbnf(schema) == Err::<Seq<char>, SpecError>(
            (GrammarErrorKind::Unsupported, "schema without a `type`"@),
        ),
{
    let f = schema->Object_0@;
    lemma_find_key(f, "enum"@);
    lemma_find_key(f, "const"@);
}

/// The bounded-string law: a string schema with `minLength` a and/or
/// `maxLength` b compiles to a root rule that repeats `string-char`
/// exactly `{a,b}` times (`{a,}` with no maximum, `*` for a minimum of 0
/// alone, `{0,b}` with no minimum) between the quotes, so the grammar
/// admits exactly the strings of a to b characters; the grammar text
/// starts with that root line.
pub proof fn lemma_bounded_string(schema: Json, min: Option<u64>, max: Option<u64>)
    requires
        schema is Object,
        member(schema, "enum"@) is None,
        member(schema, "const"@) is None,
        str_of(member(schema, "type"@)) == Some("string"@),
        u64_of(member(schema, "minLength"@)) == min,
        u64_of(member(schema, "maxLength"@)) == max,
        min is Some || max is Some,
    ensures
        root_body(schema) == r#""\"" "#@ + "string-char"@ + (match (min, max) {
            (Some(a), Some(b)) => "{"@ + decimal(a as nat) + ","@ + decimal(b as nat) + "}"@,
            (Some(a), None) => if a == 0 {
                "*"@
            } else {
                "{"@ + decimal(a as nat) + ",}"@
            },
            (None, Some(b)) => "{"@ + "0"@ + ","@ + decimal(b as nat) + "}"@,
            (None, None) => Seq::<char>::empty(),
        }) + r#" "\"" space"#@,
        spec_json_schema_to_gbnf(schema) matches Ok(g) && crate::text::is_prefix(
            "root"@ + " ::= "@ + root_body(schema) + "\n"@,
            g,
        ),
{
    reveal_strlit("0");
    let f = schema->Object_0@;
    lemma_find_key(f, "enum"@);
    lemma_find_key(f, "const"@);
    assert(decimal(0) == "0"@);
    let (r, res) = spec_visit(Seq::empty(), schema, "root"@);
    assert(res is Ok);
    lemma_grammar_shape(schema);
    let body = root_body(schema);
    let rc = spec_compile(schema);
    assert(rc is Ok);
    let g = spec_json_schema_to_gbnf(schema)->Ok_0;
    let p = "root"@ + " ::= "@ + body + "\n"@;
    assert(g.take(p.len() as int) =~= p);
}

/// The scalar-type law: a schema whose `type` is `number`, `integer`,
/// `boolean`, `null`, or `string` without length bounds, compiles to a root
/// that is exactly the shared rule of that name.
pub proof fn lemma_scalar_types(schema: Json, ty: Seq<char>)
    requires
        schema is Object,
        member(schema, "enum"@) is None,
        member(schema, "const"@) is None,
        str_of(member(schema, "type"@)) == Some(ty),
        ty == "number"@ || ty == "integer"@ || ty == "boolean"@ || ty == "null"@ || (ty == "string"@
            && u64_of(member(schema, "minLength"@)) is None && u64_of(member(schema, "maxLength"@))
            is None),
    ensures
        root_body(schema) == ty,
{
    reveal_strlit("number");
    reveal_strlit("integer");
    reveal_strlit("boolean");
    reveal_strlit("null");
    reveal_strlit("string");
    assert("string"@[0] != "number"@[0]);
    assert("string"@.len() != "integer"@.len());
    assert("string"@.len() != "boolean"@.len());
    assert("string"@.len() != "null"@.len());
    assert("number"@.len() != "integer"@.len());
    assert("number"@.len() != "boolean"@.len());
    assert("number"@.len() != "null"@.len());
    assert("integer"@[0] != "boolean"@[0]);
    assert("integer"@.len() != "null"@.len());
    assert("boolean"@.len() != "null"@.len());
    let f = schema->Object_0@;
    lemma_find_key(f, "enum"@);
    lemma_find_key(f, "const"@);
}

} // verus!
